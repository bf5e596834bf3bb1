use graph_canvas::config::{GraphCanvasConfig, TemplateGroup};
use graph_canvas::graph::Graph;
use graph_canvas::menu::{menu_steps_fit, ContextMenuTarget};
use graph_canvas::model::{Connection, NodeTemplate, SlotTemplate};
use graph_canvas::pointer::{PointerState, PressTarget};
use graph_canvas::samples::get_test_template;

fn sample_graph() -> Graph {
    let mut g = Graph::new();
    g.register_template(get_test_template());
    g.create_instance("test_node", 0, 0, Some("a".to_string())).unwrap();
    g.create_instance("test_node", 0, 0, Some("b".to_string())).unwrap();
    g
}

#[test]
fn known_slots_are_on_the_node_and_its_template() {
    let g = sample_graph();
    assert!(g.slot_is_known("a", "first"));
    assert!(g.slot_is_known("a", "incoming"));
    assert!(!g.slot_is_known("a", "nope"));
    assert!(!g.slot_is_known("z", "first"));
}

#[test]
fn replacing_a_template_can_orphan_slots() {
    let mut g = sample_graph();
    assert!(g.slots_match_templates());
    let mut bare = NodeTemplate::new("Bare");
    bare.template_id = "test_node".to_string();
    g.register_template(bare);
    assert!(!g.slots_match_templates());
}

#[test]
fn connections_lead_to_known_nodes() {
    let mut t = NodeTemplate::new("N");
    t.template_id = "n".to_string();
    let mut out = SlotTemplate::new("Out");
    out.id = "out".to_string();
    out.allowed_connections = vec!["n".to_string()];
    t.slot_templates = vec![out];
    let mut g = Graph::new();
    g.register_template(t);
    g.create_instance("n", 0, 0, Some("a".to_string())).unwrap();
    g.create_instance("n", 0, 0, Some("b".to_string())).unwrap();
    g.connect_slots(Connection {
        can_delete: true,
        host_node_id: "a".to_string(),
        host_slot_template_id: "out".to_string(),
        target_node_id: "b".to_string(),
        target_slot_template_id: "incoming".to_string(),
    })
    .unwrap();
    assert!(g.connection_targets_known());
    g.delete_node_instance("b").unwrap();
    assert!(g.connection_targets_known());
    assert!(g.get_node_connections("a").is_empty());
}

#[test]
fn integer_menus_need_room_to_step() {
    let mut g = sample_graph();
    let target = ContextMenuTarget::Field { node_id: "a".to_string(), field_template_id: "int_field".to_string() };
    assert!(menu_steps_fit(&target, &g));
    g.update_field("a", "int_field", i32::MAX.to_string()).unwrap();
    assert!(!menu_steps_fit(&target, &g));
    g.update_field("a", "int_field", (i32::MIN + 1).to_string()).unwrap();
    assert!(menu_steps_fit(&target, &g));
    assert!(menu_steps_fit(&ContextMenuTarget::Node("a".to_string()), &g));
}

#[test]
fn group_entries_must_be_template_ids() {
    let mut config = GraphCanvasConfig::new();
    let mut a = NodeTemplate::new("A");
    a.template_id = "a".to_string();
    config.node_templates = vec![a];
    assert!(config.unknown_group_template().is_none());
    let mut group = TemplateGroup::new("g", "Group");
    group.templates = vec!["a".to_string(), "A".to_string()];
    config.template_groups = vec![group];
    assert_eq!(config.unknown_group_template(), Some(("A".to_string(), "Group".to_string())));
}

#[test]
fn a_clicked_slot_must_be_on_its_node() {
    let g = sample_graph();
    let mut p = PointerState::new();
    assert!(p.clicked_slot_ok(&g));
    p.press(true, true, PressTarget::Slot("a".to_string(), "first".to_string()));
    assert!(p.clicked_slot_ok(&g));
    p.press(true, true, PressTarget::Slot("a".to_string(), "nope".to_string()));
    assert!(!p.clicked_slot_ok(&g));
    p.press(true, true, PressTarget::Slot("gone".to_string(), "nope".to_string()));
    assert!(p.clicked_slot_ok(&g));
}

#[test]
fn deleting_a_node_needs_only_the_slots_that_lead_to_it() {
    let mut n = NodeTemplate::new("N");
    n.template_id = "n".to_string();
    let mut out = SlotTemplate::new("Out");
    out.id = "out".to_string();
    out.allowed_connections = vec!["n".to_string()];
    n.slot_templates = vec![out];
    let mut m = NodeTemplate::new("M");
    m.template_id = "m".to_string();
    let mut g = Graph::new();
    g.register_template(n);
    g.register_template(m);
    g.create_instance("n", 0, 0, Some("a".to_string())).unwrap();
    g.create_instance("n", 0, 0, Some("b".to_string())).unwrap();
    g.create_instance("m", 0, 0, Some("c".to_string())).unwrap();
    g.connect_slots(Connection {
        can_delete: true,
        host_node_id: "a".to_string(),
        host_slot_template_id: "out".to_string(),
        target_node_id: "b".to_string(),
        target_slot_template_id: "incoming".to_string(),
    })
    .unwrap();
    let mut bare = NodeTemplate::new("N");
    bare.template_id = "n".to_string();
    g.register_template(bare);
    assert!(!g.slots_match_templates());
    assert!(!g.incoming_hosts_are_known("b"));
    assert!(g.incoming_hosts_are_known("c"));
    assert!(!g.slot_clearing_is_ready("b", "incoming"));
    assert!(g.slot_clearing_is_ready("a", "out"));
    assert!(g.delete_slot_connections("a", "out").is_err());
    g.delete_node_instance("c").unwrap();
    assert!(g.get_node_capabilities("c").is_none());
}
