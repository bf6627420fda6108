use bas_studio::model::{OverlayLine, OverlayNode};
use bas_studio::overlay::{copy_lines, copy_nodes, OverlayHistory, OVERLAY_HISTORY_LIMIT};

fn node(n: u64) -> OverlayNode {
    OverlayNode { id: n, object_id: n + 1000, x: n as u32, y: 7 }
}

fn line(n: u32) -> OverlayLine {
    OverlayLine { from_x: n, from_y: 1, to_x: 2, to_y: 3 }
}

#[test]
fn copies_equal_their_source() {
    let nodes = vec![node(1), node(2)];
    let lines = vec![line(1)];
    assert_eq!(copy_nodes(&nodes), nodes);
    assert_eq!(copy_lines(&lines), lines);
    assert!(copy_nodes(&Vec::new()).is_empty());
}

#[test]
fn undo_restores_the_recorded_drawing() {
    let mut h = OverlayHistory::new();
    let mut nodes = vec![node(1)];
    let mut lines = vec![line(1)];
    h.push_snapshot(&nodes, &lines);
    nodes.push(node(2));
    lines.clear();
    assert!(h.undo(&mut nodes, &mut lines));
    assert_eq!(nodes, vec![node(1)]);
    assert_eq!(lines, vec![line(1)]);
    assert_eq!(h.undo_depth(), 0);
    assert_eq!(h.redo_depth(), 1);
}

#[test]
fn redo_restores_what_undo_replaced() {
    let mut h = OverlayHistory::new();
    let mut nodes = vec![node(1)];
    let mut lines: Vec<OverlayLine> = Vec::new();
    h.push_snapshot(&nodes, &lines);
    nodes.push(node(2));
    lines.push(line(9));
    assert!(h.undo(&mut nodes, &mut lines));
    assert!(h.redo(&mut nodes, &mut lines));
    assert_eq!(nodes, vec![node(1), node(2)]);
    assert_eq!(lines, vec![line(9)]);
    assert_eq!(h.undo_depth(), 1);
    assert_eq!(h.redo_depth(), 0);
    assert!(h.undo(&mut nodes, &mut lines));
    assert_eq!(nodes, vec![node(1)]);
}

#[test]
fn undo_and_redo_on_empty_stacks_change_nothing() {
    let mut h = OverlayHistory::new();
    let mut nodes = vec![node(4)];
    let mut lines = vec![line(4)];
    assert!(!h.undo(&mut nodes, &mut lines));
    assert!(!h.redo(&mut nodes, &mut lines));
    assert_eq!(nodes, vec![node(4)]);
    assert_eq!(lines, vec![line(4)]);
    assert_eq!((h.undo_depth(), h.redo_depth()), (0, 0));
}

#[test]
fn new_edit_clears_redo() {
    let mut h = OverlayHistory::new();
    let mut nodes: Vec<OverlayNode> = Vec::new();
    let mut lines: Vec<OverlayLine> = Vec::new();
    h.push_snapshot(&nodes, &lines);
    nodes.push(node(1));
    h.push_snapshot(&nodes, &lines);
    nodes.push(node(2));
    assert!(h.undo(&mut nodes, &mut lines));
    assert_eq!(h.redo_depth(), 1);
    h.push_snapshot(&nodes, &lines);
    assert_eq!(h.redo_depth(), 0);
    assert_eq!(h.undo_depth(), 2);
    assert!(!h.redo(&mut nodes, &mut lines));
}

#[test]
fn log_keeps_the_newest_fifty() {
    assert_eq!(OVERLAY_HISTORY_LIMIT, 50);
    let mut h = OverlayHistory::new();
    let mut nodes: Vec<OverlayNode> = Vec::new();
    let mut lines: Vec<OverlayLine> = Vec::new();
    for i in 0..60u64 {
        h.push_snapshot(&nodes, &lines);
        assert!(h.undo_depth() <= 50);
        nodes.push(node(i));
    }
    assert_eq!(h.undo_depth(), 50);
    let mut steps = 0;
    while h.undo(&mut nodes, &mut lines) {
        steps += 1;
        assert!(h.undo_depth() + h.redo_depth() <= 50);
    }
    assert_eq!(steps, 50);
    assert_eq!(nodes.len(), 10);
    assert_eq!(nodes[9], node(9));
    assert_eq!(h.redo_depth(), 50);
    while h.redo(&mut nodes, &mut lines) {
        assert!(h.undo_depth() <= 50);
    }
    assert_eq!(nodes.len(), 60);
}

#[test]
fn clear_empties_both_stacks() {
    let mut h = OverlayHistory::new();
    let mut nodes: Vec<OverlayNode> = vec![node(1)];
    let mut lines: Vec<OverlayLine> = Vec::new();
    h.push_snapshot(&nodes, &lines);
    h.push_snapshot(&nodes, &lines);
    h.undo(&mut nodes, &mut lines);
    h.clear();
    assert_eq!((h.undo_depth(), h.redo_depth()), (0, 0));
}
