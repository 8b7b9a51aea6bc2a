use gpui_flow::{find_handle_position, handle_slot, FlowNode, HandleDef, HandlePosition, HandleType, Position};

fn handle(id: Option<&str>, t: HandleType, p: HandlePosition) -> HandleDef {
    HandleDef { id: id.map(|s| s.to_string()), handle_type: t, position: p, is_connectable: true }
}

fn node_with(handles: Vec<HandleDef>) -> FlowNode {
    let mut n = FlowNode::new("n".to_string(), Position { x: 0, y: 0 });
    n.handles = handles;
    n
}

#[test]
fn handle_position_prefers_the_named_handle() {
    let n = node_with(vec![
        handle(None, HandleType::Source, HandlePosition::Right),
        handle(Some("down"), HandleType::Source, HandlePosition::Bottom),
    ]);
    assert_eq!(find_handle_position(&n, &Some("down".to_string()), HandleType::Source), HandlePosition::Bottom);
}

#[test]
fn handle_position_falls_back_to_first_handle_of_the_type() {
    let n = node_with(vec![
        handle(None, HandleType::Target, HandlePosition::Top),
        handle(None, HandleType::Source, HandlePosition::Bottom),
        handle(None, HandleType::Source, HandlePosition::Left),
    ]);
    assert_eq!(find_handle_position(&n, &Some("nope".to_string()), HandleType::Source), HandlePosition::Bottom);
    assert_eq!(find_handle_position(&n, &None, HandleType::Target), HandlePosition::Top);
}

#[test]
fn handle_position_defaults_by_type() {
    let n = node_with(vec![]);
    assert_eq!(find_handle_position(&n, &None, HandleType::Source), HandlePosition::Right);
    assert_eq!(find_handle_position(&n, &None, HandleType::Target), HandlePosition::Left);
}

#[test]
fn handle_slot_spreads_handles_on_a_side() {
    let n = node_with(vec![
        handle(Some("a"), HandleType::Source, HandlePosition::Right),
        handle(Some("x"), HandleType::Target, HandlePosition::Left),
        handle(Some("b"), HandleType::Source, HandlePosition::Right),
        handle(Some("c"), HandleType::Source, HandlePosition::Right),
    ]);
    assert_eq!(handle_slot(&n, &Some("a".to_string()), HandlePosition::Right), (0, 3));
    assert_eq!(handle_slot(&n, &Some("c".to_string()), HandlePosition::Right), (2, 3));
    assert_eq!(handle_slot(&n, &Some("x".to_string()), HandlePosition::Right), (0, 3));
    assert_eq!(handle_slot(&n, &None, HandlePosition::Right), (0, 3));
    assert_eq!(handle_slot(&n, &Some("x".to_string()), HandlePosition::Left), (0, 1));
}

#[test]
fn handle_slot_on_an_empty_side_has_one_slot() {
    let n = node_with(vec![handle(Some("a"), HandleType::Source, HandlePosition::Right)]);
    assert_eq!(handle_slot(&n, &Some("a".to_string()), HandlePosition::Top), (0, 1));
}
