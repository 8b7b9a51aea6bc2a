use gpui_flow::{Connection, FlowEdge, FlowNode, FlowState, HandleDef, HandlePosition, HandleType, Position};

fn node(id: &str) -> FlowNode {
    FlowNode::new(id.to_string(), Position { x: 0, y: 0 })
}

fn edge(id: &str, s: &str, t: &str) -> FlowEdge {
    FlowEdge::new(id.to_string(), s.to_string(), t.to_string())
}

fn connection(s: &str, t: &str, sh: Option<&str>, th: Option<&str>) -> Connection {
    Connection {
        source: s.to_string(),
        target: t.to_string(),
        source_handle: sh.map(|h| h.to_string()),
        target_handle: th.map(|h| h.to_string()),
    }
}

#[test]
fn select_all_selects_only_selectable_items() {
    let mut fixed = node("b");
    fixed.selectable = false;
    let mut fixed_edge = edge("f", "a", "b");
    fixed_edge.selectable = false;
    let mut state = FlowState::new(vec![node("a"), fixed], vec![edge("e", "a", "b"), fixed_edge]);
    state.select_all();
    assert!(state.nodes[0].selected);
    assert!(!state.nodes[1].selected);
    assert!(state.edges[0].selected);
    assert!(!state.edges[1].selected);
    assert_eq!(state.get_node(&"b".to_string()).unwrap().id, "b");
}

#[test]
fn incomers_and_outgoers_follow_edge_direction() {
    let state = FlowState::new(
        vec![node("a"), node("b"), node("c")],
        vec![edge("e1", "a", "c"), edge("e2", "b", "c"), edge("e3", "c", "a"), edge("e4", "ghost", "c")],
    );
    let incomers: Vec<&str> = state.get_incomers(&"c".to_string()).iter().map(|n| n.id.as_str()).collect();
    assert_eq!(incomers, vec!["a", "b"]);
    let outgoers: Vec<&str> = state.get_outgoers(&"c".to_string()).iter().map(|n| n.id.as_str()).collect();
    assert_eq!(outgoers, vec!["a"]);
    assert!(state.get_outgoers(&"b".to_string()).iter().all(|n| n.id == "c"));
}

#[test]
fn connected_edges_are_those_leaving_or_entering() {
    let state = FlowState::new(vec![], vec![edge("e1", "a", "c"), edge("e2", "b", "d"), edge("e3", "c", "a")]);
    let connected: Vec<&str> = state.get_connected_edges(&"a".to_string()).iter().map(|e| e.id.as_str()).collect();
    assert_eq!(connected, vec!["e1", "e3"]);
    assert!(state.get_connected_edges(&"z".to_string()).is_empty());
}

#[test]
fn self_connection_is_not_valid() {
    let state = FlowState::new(vec![node("a")], vec![]);
    assert!(!state.is_valid_connection(&connection("a", "a", None, None)));
}

#[test]
fn duplicate_connection_is_not_valid() {
    let mut e = edge("e", "a", "b");
    e.source_handle = Some("out".to_string());
    let state = FlowState::new(vec![node("a"), node("b")], vec![e]);
    assert!(!state.is_valid_connection(&connection("a", "b", Some("out"), None)));
    assert!(state.is_valid_connection(&connection("a", "b", None, None)));
    assert!(state.is_valid_connection(&connection("a", "b", Some("other"), None)));
    assert!(state.is_valid_connection(&connection("b", "a", Some("out"), None)));
}

#[test]
fn added_connection_becomes_a_duplicate() {
    let mut state = FlowState::new(vec![node("a"), node("b")], vec![]);
    let c = connection("a", "b", Some("s1"), Some("t1"));
    assert!(state.is_valid_connection(&c));
    state.add_edge_from_connection(&c, "new".to_string());
    assert!(!state.is_valid_connection(&c));
    let added = &state.edges[0];
    assert_eq!(added.id, "new");
    assert_eq!(added.source_handle.as_deref(), Some("s1"));
    assert_eq!(added.target_handle.as_deref(), Some("t1"));
    assert!(!added.selected && added.selectable && !added.hidden);
}

#[test]
fn snap_candidates_skip_hidden_same_node_same_type_and_closed_handles() {
    let mut from = node("from");
    from.handles = vec![HandleDef::source(HandlePosition::Right), HandleDef::target(HandlePosition::Left)];
    let mut hidden = node("hidden");
    hidden.hidden = true;
    hidden.handles = vec![HandleDef::target(HandlePosition::Left)];
    let mut other = node("other");
    let mut closed = HandleDef::target(HandlePosition::Top);
    closed.is_connectable = false;
    other.handles = vec![
        HandleDef::source(HandlePosition::Right),
        HandleDef::target(HandlePosition::Left),
        closed,
        HandleDef::target(HandlePosition::Bottom),
    ];
    let state = FlowState::new(vec![from, hidden, other], vec![]);
    assert_eq!(state.snap_candidates(&"from".to_string(), HandleType::Source), vec![(2, 1), (2, 3)]);
    assert_eq!(state.snap_candidates(&"from".to_string(), HandleType::Target), vec![(2, 0)]);
}
