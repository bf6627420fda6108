//! The edit log of the overlay drawing: two stacks of snapshots, one to go
//! back and one to go forward again.  It knows tokens and lines only; the
//! object hierarchy has no history.

use vstd::prelude::*;
use crate::model::{OverlayLine, OverlayNode};

verus! {

/// The most snapshots that the log keeps.
pub const OVERLAY_HISTORY_LIMIT: usize = 50;

/// The drawing at one moment, as a value.
pub struct OverlayState {
    pub nodes: Seq<OverlayNode>,
    pub lines: Seq<OverlayLine>,
}

/// A stored copy of the drawing.
#[derive(Debug)]
pub struct OverlaySnapshot {
    pub nodes: Vec<OverlayNode>,
    pub lines: Vec<OverlayLine>,
}

impl View for OverlaySnapshot {
    type V = OverlayState;

    open spec fn view(&self) -> OverlayState {
        OverlayState { nodes: self.nodes@, lines: self.lines@ }
    }
}

/// The two stacks as values; the last entry of each is its top.
pub struct HistoryView {
    pub undo: Seq<OverlayState>,
    pub redo: Seq<OverlayState>,
}

/// The log after `current` was recorded: it lies on top of the undo stack,
/// the oldest entry has left if the stack was full, and the redo stack is
/// empty.
pub open spec fn after_push(h: HistoryView, current: OverlayState) -> HistoryView {
    let grown = h.undo.push(current);
    HistoryView {
        undo: if grown.len() > OVERLAY_HISTORY_LIMIT {
            grown.drop_first()
        } else {
            grown
        },
        redo: Seq::empty(),
    }
}

/// Log and drawing after a step back: the top of the undo stack becomes
/// the drawing, and the drawing goes on top of the redo stack.  With an
/// empty undo stack both stay as they are.
pub open spec fn after_undo(h: HistoryView, current: OverlayState) -> (HistoryView, OverlayState) {
    if h.undo.len() == 0 {
        (h, current)
    } else {
        (HistoryView { undo: h.undo.drop_last(), redo: h.redo.push(current) }, h.undo.last())
    }
}

/// Log and drawing after a step forward, the mirror image of a step back.
pub open spec fn after_redo(h: HistoryView, current: OverlayState) -> (HistoryView, OverlayState) {
    if h.redo.len() == 0 {
        (h, current)
    } else {
        (HistoryView { undo: h.undo.push(current), redo: h.redo.drop_last() }, h.redo.last())
    }
}

/// The views of a stack of snapshots, bottom first.
pub open spec fn stack_view(stack: Seq<OverlaySnapshot>) -> Seq<OverlayState> {
    stack.map_values(|s: OverlaySnapshot| s@)
}

/// A copy of a list of tokens.
pub fn copy_nodes(nodes: &Vec<OverlayNode>) -> (r: Vec<OverlayNode>)
    ensures
        r@ == nodes@,
{
    let mut out: Vec<OverlayNode> = Vec::new();
    let mut i: usize = 0;
    while i < nodes.len()
        invariant
            i <= nodes.len(),
            out@ == nodes@.take(i as int),
        decreases nodes.len() - i,
    {
        out.push(nodes[i]);
        proof {
            assert(nodes@.take(i as int + 1) =~= nodes@.take(i as int).push(nodes@[i as int]));
        }
        i += 1;
    }
    proof {
        assert(nodes@.take(i as int) =~= nodes@);
    }
    out
}

/// A copy of a list of lines.
pub fn copy_lines(lines: &Vec<OverlayLine>) -> (r: Vec<OverlayLine>)
    ensures
        r@ == lines@,
{
    let mut out: Vec<OverlayLine> = Vec::new();
    let mut i: usize = 0;
    while i < lines.len()
        invariant
            i <= lines.len(),
            out@ == lines@.take(i as int),
        decreases lines.len() - i,
    {
        out.push(lines[i]);
        proof {
            assert(lines@.take(i as int + 1) =~= lines@.take(i as int).push(lines@[i as int]));
        }
        i += 1;
    }
    proof {
        assert(lines@.take(i as int) =~= lines@);
    }
    out
}

/// The edit log.  Both stacks together never hold more than
/// `OVERLAY_HISTORY_LIMIT` snapshots.
#[derive(Debug)]
pub struct OverlayHistory {
    undo_stack: Vec<OverlaySnapshot>,
    redo_stack: Vec<OverlaySnapshot>,
}

impl View for OverlayHistory {
    type V = HistoryView;

    closed spec fn view(&self) -> HistoryView {
        HistoryView { undo: stack_view(self.undo_stack@), redo: stack_view(self.redo_stack@) }
    }
}

impl OverlayHistory {
    #[verifier::type_invariant]
    spec fn within_limit(self) -> bool {
        self.undo_stack.len() + self.redo_stack.len() <= OVERLAY_HISTORY_LIMIT
    }

    /// An empty log.
    pub fn new() -> (h: OverlayHistory)
        ensures
            h@.undo.len() == 0,
            h@.redo.len() == 0,
    {
        OverlayHistory { undo_stack: Vec::new(), redo_stack: Vec::new() }
    }

    /// Number of steps back that the log holds.
    pub fn undo_depth(&self) -> (n: usize)
        ensures
            n == self@.undo.len(),
            n <= OVERLAY_HISTORY_LIMIT,
    {
        proof {
            use_type_invariant(self);
        }
        self.undo_stack.len()
    }

    /// Number of steps forward that the log holds.
    pub fn redo_depth(&self) -> (n: usize)
        ensures
            n == self@.redo.len(),
            n <= OVERLAY_HISTORY_LIMIT,
    {
        proof {
            use_type_invariant(self);
        }
        self.redo_stack.len()
    }

    /// Empties both stacks.
    pub fn clear(&mut self)
        ensures
            final(self)@.undo.len() == 0,
            final(self)@.redo.len() == 0,
    {
        proof {
            use_type_invariant(&*self);
        }
        self.undo_stack = Vec::new();
        self.redo_stack = Vec::new();
        proof {
            assert(stack_view(self.undo_stack@) =~= Seq::<OverlayState>::empty());
            assert(stack_view(self.redo_stack@) =~= Seq::<OverlayState>::empty());
        }
    }

    /// Records a copy of the drawing before it is changed.
    pub fn push_snapshot(&mut self, nodes: &Vec<OverlayNode>, lines: &Vec<OverlayLine>)
        ensures
            final(self)@ == after_push(
                old(self)@,
                OverlayState { nodes: nodes@, lines: lines@ },
            ),
    {
        proof {
            use_type_invariant(&*self);
        }
        let ghost before = stack_view(self.undo_stack@);
        let snapshot = OverlaySnapshot { nodes: copy_nodes(nodes), lines: copy_lines(lines) };
        let mut undo: Vec<OverlaySnapshot> = Vec::new();
        core::mem::swap(&mut undo, &mut self.undo_stack);
        undo.push(snapshot);
        proof {
            assert(stack_view(undo@) =~= before.push(
                OverlayState { nodes: nodes@, lines: lines@ },
            ));
        }
        if undo.len() > OVERLAY_HISTORY_LIMIT {
            let ghost grown = stack_view(undo@);
            undo.remove(0);
            proof {
                assert(stack_view(undo@) =~= grown.drop_first());
            }
        }
        self.redo_stack = Vec::new();
        self.undo_stack = undo;
        proof {
            assert(stack_view(self.redo_stack@) =~= Seq::<OverlayState>::empty());
        }
    }

    /// Steps back: the drawing becomes the snapshot on top of the undo
    /// stack, and what it was goes on top of the redo stack.  Says whether
    /// there was a snapshot; with none, nothing changes.
    pub fn undo(&mut self, nodes: &mut Vec<OverlayNode>, lines: &mut Vec<OverlayLine>) -> (r: bool)
        ensures
            r == (old(self)@.undo.len() > 0),
            (final(self)@, OverlayState { nodes: final(nodes)@, lines: final(lines)@ })
                == after_undo(old(self)@, OverlayState { nodes: old(nodes)@, lines: old(lines)@ }),
    {
        proof {
            use_type_invariant(&*self);
        }
        let ghost undo_before = stack_view(self.undo_stack@);
        let ghost redo_before = stack_view(self.redo_stack@);
        let mut undo: Vec<OverlaySnapshot> = Vec::new();
        let mut redo: Vec<OverlaySnapshot> = Vec::new();
        core::mem::swap(&mut undo, &mut self.undo_stack);
        core::mem::swap(&mut redo, &mut self.redo_stack);
        let stepped = match undo.pop() {
            None => false,
            Some(snapshot) => {
                let mut snapshot = snapshot;
                core::mem::swap(nodes, &mut snapshot.nodes);
                core::mem::swap(lines, &mut snapshot.lines);
                redo.push(snapshot);
                proof {
                    assert(stack_view(undo@) =~= undo_before.drop_last());
                    assert(stack_view(redo@) =~= redo_before.push(
                        OverlayState { nodes: old(nodes)@, lines: old(lines)@ },
                    ));
                }
                true
            },
        };
        self.undo_stack = undo;
        self.redo_stack = redo;
        stepped
    }

    /// Steps forward again: the drawing becomes the snapshot on top of the
    /// redo stack, and what it was goes on top of the undo stack.  Says
    /// whether there was a snapshot; with none, nothing changes.
    pub fn redo(&mut self, nodes: &mut Vec<OverlayNode>, lines: &mut Vec<OverlayLine>) -> (r: bool)
        ensures
            r == (old(self)@.redo.len() > 0),
            (final(self)@, OverlayState { nodes: final(nodes)@, lines: final(lines)@ })
                == after_redo(old(self)@, OverlayState { nodes: old(nodes)@, lines: old(lines)@ }),
    {
        proof {
            use_type_invariant(&*self);
        }
        let ghost undo_before = stack_view(self.undo_stack@);
        let ghost redo_before = stack_view(self.redo_stack@);
        let mut undo: Vec<OverlaySnapshot> = Vec::new();
        let mut redo: Vec<OverlaySnapshot> = Vec::new();
        core::mem::swap(&mut undo, &mut self.undo_stack);
        core::mem::swap(&mut redo, &mut self.redo_stack);
        let stepped = match redo.pop() {
            None => false,
            Some(snapshot) => {
                let mut snapshot = snapshot;
                core::mem::swap(nodes, &mut snapshot.nodes);
                core::mem::swap(lines, &mut snapshot.lines);
                undo.push(snapshot);
                proof {
                    assert(stack_view(redo@) =~= redo_before.drop_last());
                    assert(stack_view(undo@) =~= undo_before.push(
                        OverlayState { nodes: old(nodes)@, lines: old(lines)@ },
                    ));
                }
                true
            },
        };
        self.redo_stack = redo;
        self.undo_stack = undo;
        stepped
    }
}

/// Both stacks together hold no more than the limit.
pub open spec fn within_limit(h: HistoryView) -> bool {
    h.undo.len() + h.redo.len() <= OVERLAY_HISTORY_LIMIT
}

/// Recording, stepping back and stepping forward keep the log within its
/// limit, so the undo stack never holds more than the limit.
pub proof fn lemma_limit_kept(h: HistoryView, current: OverlayState)
    requires
        within_limit(h),
    ensures
        within_limit(after_push(h, current)),
        within_limit(after_undo(h, current).0),
        within_limit(after_redo(h, current).0),
        after_push(h, current).undo.len() <= OVERLAY_HISTORY_LIMIT,
        after_undo(h, current).0.undo.len() <= OVERLAY_HISTORY_LIMIT,
        after_redo(h, current).0.undo.len() <= OVERLAY_HISTORY_LIMIT,
{
}

/// A step back after a change brings back the drawing that was recorded
/// before the change, whatever the change made of it.
pub proof fn lemma_undo_restores(h: HistoryView, recorded: OverlayState, changed: OverlayState)
    ensures
        after_undo(after_push(h, recorded), changed).1 == recorded,
{
}

/// A step forward after a step back brings back the drawing that the step
/// back replaced, and the log as it was.
pub proof fn lemma_redo_restores(h: HistoryView, current: OverlayState)
    requires
        h.undo.len() > 0,
    ensures
        after_redo(after_undo(h, current).0, after_undo(h, current).1) == (h, current),
{
    let (h1, s1) = after_undo(h, current);
    let (h2, s2) = after_redo(h1, s1);
    assert(h2.undo =~= h.undo);
    assert(h2.redo =~= h.redo);
}

/// A step back after a step forward likewise brings back drawing and log.
pub proof fn lemma_undo_after_redo(h: HistoryView, current: OverlayState)
    requires
        h.redo.len() > 0,
    ensures
        after_undo(after_redo(h, current).0, after_redo(h, current).1) == (h, current),
{
    let (h1, s1) = after_redo(h, current);
    let (h2, s2) = after_undo(h1, s1);
    assert(h2.undo =~= h.undo);
    assert(h2.redo =~= h.redo);
}

} // verus!
