use gpui_flow::{Connection, EdgeChange, FlowEdge, FlowNode, FlowState, HandleDef, HandlePosition, NodeChange, Position};

fn pos(x: f32, y: f32) -> Position {
    Position { x: x.to_bits(), y: y.to_bits() }
}

fn node(id: &str, x: f32, y: f32) -> FlowNode {
    FlowNode::new(id.to_string(), pos(x, y))
}

fn edge(id: &str, s: &str, t: &str) -> FlowEdge {
    FlowEdge::new(id.to_string(), s.to_string(), t.to_string())
}

fn labelled(id: &str, label: &str) -> FlowNode {
    let mut n = node(id, 0.0, 0.0);
    n.label = label.to_string();
    n
}

fn ids(state: &FlowState) -> Vec<String> {
    state.nodes.iter().map(|n| n.id.clone()).collect()
}

#[test]
fn new_indexes_nodes_by_id() {
    let state = FlowState::new(vec![node("a", 1.0, 2.0), node("b", 3.0, 4.0)], vec![edge("e", "a", "b")]);
    let b = state.get_node(&"b".to_string()).expect("b is there");
    assert_eq!(b.id, "b");
    assert_eq!(f32::from_bits(b.position.x), 3.0);
    assert!(state.get_node(&"zz".to_string()).is_none());
    assert_eq!(state.edges.len(), 1);
}

#[test]
fn get_node_finds_last_node_with_repeated_id() {
    let state = FlowState::new(vec![labelled("a", "first"), labelled("a", "second")], vec![]);
    assert_eq!(state.get_node(&"a".to_string()).unwrap().label, "second");
}

#[test]
fn get_node_mut_edits_the_stored_node() {
    let mut state = FlowState::new(vec![node("a", 0.0, 0.0), node("b", 0.0, 0.0)], vec![]);
    state.get_node_mut(&"b".to_string()).unwrap().label = "bee".to_string();
    assert_eq!(state.nodes[1].label, "bee");
    assert_eq!(state.nodes[0].label, "");
    assert!(state.get_node_mut(&"c".to_string()).is_none());
}

#[test]
fn set_nodes_rebuilds_the_index() {
    let mut state = FlowState::new(vec![node("a", 0.0, 0.0)], vec![]);
    state.set_nodes(vec![node("x", 0.0, 0.0), node("y", 0.0, 0.0)]);
    assert!(state.get_node(&"a".to_string()).is_none());
    assert_eq!(state.get_node(&"y".to_string()).unwrap().id, "y");
}

#[test]
fn set_edges_replaces_the_edges() {
    let mut state = FlowState::new(vec![], vec![edge("e1", "a", "b")]);
    state.set_edges(vec![edge("e2", "b", "a"), edge("e3", "a", "a")]);
    let edge_ids: Vec<&str> = state.edges.iter().map(|e| e.id.as_str()).collect();
    assert_eq!(edge_ids, vec!["e2", "e3"]);
}

#[test]
fn rebuild_lookup_indexes_nodes_pushed_directly() {
    let mut state = FlowState::new(vec![node("a", 0.0, 0.0)], vec![]);
    state.nodes.push(node("child", 10.0, 0.0));
    state.rebuild_lookup();
    assert_eq!(state.get_node(&"child".to_string()).unwrap().id, "child");
}

#[test]
fn undo_restores_the_recorded_graph() {
    let mut state = FlowState::new(vec![node("a", 0.0, 0.0)], vec![]);
    state.push_undo();
    state.nodes.push(node("b", 0.0, 0.0));
    state.edges.push(edge("e", "a", "b"));
    state.rebuild_lookup();
    assert!(state.undo());
    assert_eq!(ids(&state), vec!["a"]);
    assert!(state.edges.is_empty());
    assert!(state.get_node(&"b".to_string()).is_none());
}

#[test]
fn undo_without_history_does_nothing() {
    let mut state = FlowState::new(vec![node("a", 0.0, 0.0)], vec![]);
    assert!(!state.undo());
    assert!(!state.redo());
    assert_eq!(ids(&state), vec!["a"]);
}

#[test]
fn redo_after_undo_gives_back_the_undone_graph() {
    let mut state = FlowState::new(vec![node("a", 0.0, 0.0)], vec![]);
    state.push_undo();
    state.set_nodes(vec![node("a", 0.0, 0.0), node("b", 0.0, 0.0)]);
    assert!(state.undo());
    assert_eq!(ids(&state), vec!["a"]);
    assert!(state.redo());
    assert_eq!(ids(&state), vec!["a", "b"]);
    assert_eq!(state.get_node(&"b".to_string()).unwrap().id, "b");
    assert!(!state.redo());
    assert!(state.undo());
    assert_eq!(ids(&state), vec!["a"]);
}

#[test]
fn push_undo_clears_the_redo_stack() {
    let mut state = FlowState::new(vec![node("a", 0.0, 0.0)], vec![]);
    state.push_undo();
    state.set_nodes(vec![]);
    assert!(state.undo());
    state.push_undo();
    assert!(!state.redo());
}

#[test]
fn history_keeps_the_hundred_most_recent_snapshots() {
    let mut state = FlowState::new(vec![labelled("n", "0")], vec![]);
    for i in 1..=105 {
        state.push_undo();
        state.set_nodes(vec![labelled("n", &i.to_string())]);
    }
    for _ in 0..100 {
        assert!(state.undo());
    }
    assert!(!state.undo());
    assert_eq!(state.nodes[0].label, "5");
}

#[test]
fn history_snapshots_are_copies() {
    let mut state = FlowState::new(vec![node("a", 0.0, 0.0)], vec![edge("e", "a", "a")]);
    state.nodes[0].handles.push(HandleDef::source(HandlePosition::Right));
    state.push_undo();
    state.nodes[0].handles.clear();
    state.apply_edge_changes(&[EdgeChange::Select { id: "e".to_string(), selected: true }]);
    assert!(state.undo());
    assert_eq!(state.nodes[0].handles.len(), 1);
    assert!(!state.edges[0].selected);
}

#[test]
fn undo_restores_the_graph_after_several_changes() {
    let mut state = FlowState::new(vec![node("a", 1.0, 1.0), node("b", 2.0, 2.0)], vec![edge("e", "a", "b")]);
    state.push_undo();
    state.apply_node_changes(&[NodeChange::Remove { id: "a".to_string() }]);
    state.apply_edge_changes(&[EdgeChange::Remove { id: "e".to_string() }]);
    state.add_edge_from_connection(
        &Connection { source: "b".to_string(), target: "b".to_string(), source_handle: None, target_handle: None },
        "loop".to_string(),
    );
    state.select_all();
    assert!(state.undo());
    assert_eq!(ids(&state), vec!["a", "b"]);
    assert_eq!(state.edges.len(), 1);
    assert_eq!(state.edges[0].id, "e");
    assert!(!state.nodes[0].selected);
    assert_eq!(f32::from_bits(state.get_node(&"a".to_string()).unwrap().position.x), 1.0);
}

#[test]
fn after_101_recordings_100_undos_reach_the_second_one() {
    let mut state = FlowState::new(vec![labelled("n", "0")], vec![]);
    for k in 1..=101 {
        state.set_nodes(vec![labelled("n", &k.to_string())]);
        state.push_undo();
    }
    for _ in 0..100 {
        assert!(state.undo());
    }
    assert_eq!(state.nodes[0].label, "2");
    assert!(!state.undo());
}

#[test]
fn edge_paint_color_prefers_selection_then_own_color() {
    let mut e = edge("e", "a", "b");
    assert_eq!(e.paint_color(1, 2), 1);
    e.color = Some(7);
    assert_eq!(e.paint_color(1, 2), 7);
    e.selected = true;
    assert_eq!(e.paint_color(1, 2), 2);
}
