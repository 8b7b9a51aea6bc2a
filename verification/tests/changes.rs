use gpui_flow::{EdgeChange, FlowEdge, FlowNode, FlowState, NodeChange, Position};

fn pos(x: f32, y: f32) -> Position {
    Position { x: x.to_bits(), y: y.to_bits() }
}

fn node(id: &str) -> FlowNode {
    FlowNode::new(id.to_string(), pos(0.0, 0.0))
}

fn edge(id: &str, s: &str, t: &str) -> FlowEdge {
    FlowEdge::new(id.to_string(), s.to_string(), t.to_string())
}

fn ids(state: &FlowState) -> Vec<String> {
    state.nodes.iter().map(|n| n.id.clone()).collect()
}

#[test]
fn position_dimension_and_selection_changes_apply() {
    let mut state = FlowState::new(vec![node("a"), node("b")], vec![]);
    let changes = vec![
        NodeChange::Position { id: "b".to_string(), position: pos(5.0, 6.0), dragging: true },
        NodeChange::Dimensions { id: "a".to_string(), width: 120f32.to_bits(), height: 40f32.to_bits() },
        NodeChange::Select { id: "a".to_string(), selected: true },
    ];
    state.apply_node_changes(&changes);
    let b = state.get_node(&"b".to_string()).unwrap();
    assert_eq!(f32::from_bits(b.position.x), 5.0);
    assert_eq!(f32::from_bits(b.position.y), 6.0);
    assert!(b.dragging);
    let a = state.get_node(&"a".to_string()).unwrap();
    assert_eq!(a.measured_width.map(f32::from_bits), Some(120.0));
    assert_eq!(a.measured_height.map(f32::from_bits), Some(40.0));
    assert!(a.selected);
    assert!(!b.selected);
}

#[test]
fn change_for_unknown_id_changes_nothing() {
    let mut state = FlowState::new(vec![node("a")], vec![]);
    state.apply_node_changes(&[
        NodeChange::Select { id: "zz".to_string(), selected: true },
        NodeChange::Remove { id: "zz".to_string() },
    ]);
    assert_eq!(ids(&state), vec!["a"]);
    assert!(!state.nodes[0].selected);
}

#[test]
fn remove_change_drops_the_node_and_rebuilds_the_index() {
    let mut state = FlowState::new(vec![node("a"), node("b"), node("c")], vec![]);
    state.apply_node_changes(&[NodeChange::Remove { id: "a".to_string() }]);
    assert_eq!(ids(&state), vec!["b", "c"]);
    assert_eq!(state.get_node(&"c".to_string()).unwrap().id, "c");
    assert!(state.get_node(&"a".to_string()).is_none());
}

#[test]
fn each_removal_in_a_batch_removes_the_node_it_names() {
    let mut state = FlowState::new(vec![node("a"), node("b"), node("c")], vec![]);
    state.apply_node_changes(&[NodeChange::Remove { id: "a".to_string() }, NodeChange::Remove { id: "b".to_string() }]);
    assert_eq!(ids(&state), vec!["c"]);
    assert!(state.get_node(&"c".to_string()).is_some());
    assert!(state.get_node(&"b".to_string()).is_none());
}

#[test]
fn changes_after_a_removal_act_on_the_node_with_the_id() {
    let mut state = FlowState::new(vec![node("a"), node("b")], vec![]);
    state.apply_node_changes(&[
        NodeChange::Remove { id: "a".to_string() },
        NodeChange::Select { id: "b".to_string(), selected: true },
    ]);
    assert_eq!(ids(&state), vec!["b"]);
    assert!(state.nodes[0].selected);
    assert!(state.get_node(&"b".to_string()).unwrap().selected);
}

#[test]
fn removing_a_repeated_id_removes_its_last_node() {
    let mut first = node("a");
    first.label = "first".to_string();
    let mut second = node("a");
    second.label = "second".to_string();
    let mut state = FlowState::new(vec![first, node("b"), second], vec![]);
    state.apply_node_changes(&[NodeChange::Remove { id: "a".to_string() }]);
    assert_eq!(ids(&state), vec!["a", "b"]);
    assert_eq!(state.get_node(&"a".to_string()).unwrap().label, "first");
}

#[test]
fn edge_selection_acts_on_the_first_edge_with_the_id() {
    let mut state = FlowState::new(vec![], vec![edge("e", "a", "b"), edge("e", "b", "c"), edge("f", "a", "c")]);
    state.apply_edge_changes(&[EdgeChange::Select { id: "e".to_string(), selected: true }]);
    assert!(state.edges[0].selected);
    assert!(!state.edges[1].selected);
    assert!(!state.edges[2].selected);
}

#[test]
fn edge_removal_drops_every_edge_with_the_id() {
    let mut state = FlowState::new(vec![], vec![edge("e", "a", "b"), edge("f", "a", "c"), edge("e", "b", "c")]);
    state.apply_edge_changes(&[
        EdgeChange::Remove { id: "e".to_string() },
        EdgeChange::Select { id: "f".to_string(), selected: true },
        EdgeChange::Remove { id: "missing".to_string() },
    ]);
    assert_eq!(state.edges.len(), 1);
    assert_eq!(state.edges[0].id, "f");
    assert!(state.edges[0].selected);
}
