use graph_canvas::commands::GraphCommand;
use graph_canvas::errors::GraphError;
use graph_canvas::graph::Graph;
use graph_canvas::menu::{ContextMenuAction, ContextMenuTarget, InteractionMode};
use graph_canvas::model::Connection;
use graph_canvas::pointer::{PointerState, PressOutcome, PressTarget, ReleaseStart, ReleaseTarget};
use graph_canvas::samples::get_test_template;

fn graph_with(ids: &[&str]) -> Graph {
    let mut g = Graph::new();
    g.register_template(get_test_template());
    for id in ids {
        g.create_instance("test_node", 0, 0, Some(id.to_string())).unwrap();
    }
    g
}

fn connection() -> Connection {
    Connection {
        can_delete: true,
        host_node_id: "a".to_string(),
        host_slot_template_id: "first".to_string(),
        target_node_id: "b".to_string(),
        target_slot_template_id: "incoming".to_string(),
    }
}

#[test]
fn a_new_pointer_is_idle() {
    let p = PointerState::new();
    assert!(!p.is_mouse_down && !p.is_dragging_node && !p.is_panning);
    assert!(p.click_initiated_on_node.is_none() && p.connection_drag.is_none() && p.context_menu.is_none());
    assert_eq!(p.mode, InteractionMode::Default);
    assert_eq!(p.actively_creating_node_template_id, "Unset");
}

#[test]
fn presses_click_what_they_land_on() {
    let mut p = PointerState::new();
    assert!(matches!(p.press(false, true, PressTarget::Node("a".to_string())), PressOutcome::Ignored));
    assert!(!p.is_mouse_down);
    assert!(matches!(p.press(true, true, PressTarget::Node("a".to_string())), PressOutcome::Done));
    assert!(p.is_mouse_down);
    assert_eq!(p.click_initiated_on_node.as_deref(), Some("a"));
    assert_eq!(p.currently_selected_node_instance.as_deref(), Some("a"));
    p.press(true, true, PressTarget::Slot("b".to_string(), "first".to_string()));
    assert_eq!(p.click_initiated_on_slot, Some(("b".to_string(), "first".to_string())));
    p.press(true, true, PressTarget::Nothing);
    assert!(p.is_panning);
    assert!(p.click_initiated_on_node.is_none() && p.click_initiated_on_slot.is_none());
    assert!(p.currently_selected_node_instance.is_none());
    let mut q = PointerState::new();
    q.press(true, false, PressTarget::Nothing);
    assert!(!q.is_panning);
}

#[test]
fn a_menu_entry_chooses_its_action() {
    let mut p = PointerState::new();
    p.context_menu = Some(ContextMenuTarget::Node("a".to_string()));
    match p.press(true, true, PressTarget::MenuEntry(ContextMenuAction::Delete)) {
        PressOutcome::MenuAction(ContextMenuAction::Delete, ContextMenuTarget::Node(id)) => assert_eq!(id, "a"),
        _ => panic!("expected the menu action"),
    }
    assert!(p.context_menu.is_some());
    assert!(p.close_menu());
    assert!(!p.close_menu());
}

#[test]
fn moving_a_pressed_node_drags_it() {
    let g = graph_with(&["a"]);
    let mut p = PointerState::new();
    p.context_menu = Some(ContextMenuTarget::Node("a".to_string()));
    p.press(true, true, PressTarget::Node("a".to_string()));
    let out = p.moved(&g);
    assert!(out.menu_closed);
    assert_eq!(out.start_simulation.as_deref(), Some("a"));
    assert_eq!(out.drag_node.as_deref(), Some("a"));
    assert!(!out.pan);
    assert!(p.is_dragging_node && p.context_menu.is_none());
    let again = p.moved(&g);
    assert!(again.start_simulation.is_none() && !again.menu_closed);
    assert_eq!(again.drag_node.as_deref(), Some("a"));
}

#[test]
fn moving_a_pressed_slot_starts_a_connection() {
    let g = graph_with(&["a"]);
    let mut p = PointerState::new();
    p.press(true, true, PressTarget::Slot("a".to_string(), "first".to_string()));
    let out = p.moved(&g);
    assert_eq!(out.connection_started, Some(("a".to_string(), "first".to_string())));
    assert_eq!(p.connection_drag, Some(("a".to_string(), "first".to_string())));
    assert!(p.moved(&g).connection_started.is_none());
    let mut q = PointerState::new();
    q.press(true, true, PressTarget::Slot("gone".to_string(), "first".to_string()));
    assert!(q.moved(&g).connection_started.is_none());
    assert!(q.connection_drag.is_none());
}

#[test]
fn moving_after_pressing_nothing_pans() {
    let g = graph_with(&[]);
    let mut p = PointerState::new();
    p.press(true, true, PressTarget::Nothing);
    let out = p.moved(&g);
    assert!(out.pan && out.drag_node.is_none());
}

#[test]
fn releasing_a_connection_drag_drops_it() {
    let g = graph_with(&["a", "b"]);
    let mut p = PointerState::new();
    p.press(true, true, PressTarget::Slot("a".to_string(), "first".to_string()));
    p.moved(&g);
    match p.release_begin(true) {
        ReleaseStart::Drop(n, s) => assert_eq!((n.as_str(), s.as_str()), ("a", "first")),
        _ => panic!("expected a drop"),
    }
    assert!(!p.is_mouse_down && p.connection_drag.is_none() && p.click_initiated_on_slot.is_none());
    let plan = p.release_end(true, Some(ReleaseTarget::Node("b".to_string())), None);
    assert!(plan.opened.is_none() && plan.node_moved.is_none());
    assert!(matches!(p.release_begin(false), ReleaseStart::Ignored));
}

#[test]
fn releasing_a_dragged_node_reports_it_moved() {
    let g = graph_with(&["a"]);
    let mut p = PointerState::new();
    p.press(true, true, PressTarget::Node("a".to_string()));
    p.moved(&g);
    assert!(matches!(p.release_begin(true), ReleaseStart::Continue));
    let plan = p.release_end(false, Some(ReleaseTarget::Node("a".to_string())), None);
    assert_eq!(plan.node_moved.as_deref(), Some("a"));
    assert!(plan.save_transform_after_move);
    assert!(plan.stop_simulation);
    assert!(plan.opened.is_none());
    assert!(!p.is_dragging_node && p.click_initiated_on_node.is_none());
}

#[test]
fn a_click_opens_the_menu_of_what_it_lands_on() {
    let mut p = PointerState::new();
    p.press(true, true, PressTarget::Node("a".to_string()));
    p.release_begin(true);
    let plan = p.release_end(
        false,
        Some(ReleaseTarget::Field("a".to_string(), "int_field".to_string(), "42".to_string())),
        Some(connection()),
    );
    match plan.opened {
        Some((ContextMenuTarget::Field { node_id, field_template_id }, Some(v))) => {
            assert_eq!((node_id.as_str(), field_template_id.as_str(), v.as_str()), ("a", "int_field", "42"))
        }
        _ => panic!("expected the field menu"),
    }
    assert!(matches!(p.context_menu, Some(ContextMenuTarget::Field { .. })));
}

#[test]
fn a_click_on_a_connection_opens_its_menu() {
    let mut p = PointerState::new();
    p.release_begin(true);
    let plan = p.release_end(false, None, Some(connection()));
    match plan.opened {
        Some((ContextMenuTarget::Connection(c), None)) => assert_eq!(c.target_node_id, "b"),
        _ => panic!("expected the connection menu"),
    }
}

#[test]
fn a_click_on_nothing_closes_the_menu_and_ends_panning() {
    let mut p = PointerState::new();
    p.press(true, true, PressTarget::Nothing);
    p.context_menu = Some(ContextMenuTarget::Node("a".to_string()));
    p.release_begin(true);
    let plan = p.release_end(false, None, None);
    assert!(plan.menu_closed && plan.save_transform && !plan.stop_simulation);
    assert!(p.context_menu.is_none() && !p.is_panning);
}

#[test]
fn adding_mode_creates_nodes_of_the_chosen_template() {
    let g = graph_with(&[]);
    let mut p = PointerState::new();
    assert!(p.add_node_command(&g, false, 1, 2).is_none());
    match p.add_node_command(&g, true, 1, 2) {
        Some(Err(GraphError::TemplateNotFound(id))) => assert_eq!(id, "Unset"),
        _ => panic!("expected a missing template"),
    }
    p.actively_creating_node_template_id = "test_node".to_string();
    match p.add_node_command(&g, true, 1, 2) {
        Some(Ok(GraphCommand::CreateNode { template_id, x, y })) => {
            assert_eq!((template_id.as_str(), x, y), ("test_node", 1, 2))
        }
        _ => panic!("expected a node to be created"),
    }
}

#[test]
fn resetting_a_drag_clears_the_clicks() {
    let mut p = PointerState::new();
    p.press(true, true, PressTarget::Node("a".to_string()));
    p.connection_drag = Some(("a".to_string(), "first".to_string()));
    p.is_dragging_node = true;
    p.reset_drag();
    assert!(p.connection_drag.is_none() && !p.is_dragging_node);
    assert!(p.click_initiated_on_node.is_none() && p.click_initiated_on_slot.is_none());
    assert!(p.is_mouse_down);
}

#[test]
fn a_dropped_drag_connects_to_the_incoming_slot() {
    let c = graph_canvas::pointer::dropped_connection(&"a".to_string(), &"first".to_string(), &"b".to_string());
    assert_eq!(
        (c.host_node_id.as_str(), c.host_slot_template_id.as_str(), c.target_node_id.as_str(), c.target_slot_template_id.as_str()),
        ("a", "first", "b", "incoming")
    );
    assert!(c.can_delete);
}
