use graph_canvas::appearance::slot_fill_color;
use graph_canvas::commands::GraphCommand;
use graph_canvas::config::{
    GraphCanvasConfig, InitialConnection, InitialFieldValue, InitialNode, TemplateGroup,
    TemplateIdentifier, CONTEXT_MENU_HEIGHT_BITS, CONTEXT_MENU_WIDTH_BITS,
    CONTROL_POINT_DISTANCE_BITS, GRID_SIZE_BITS, INITIAL_COORDINATE_BITS, SLOT_RADIUS_BITS,
};
use graph_canvas::conformity::{check_conformity, save};
use graph_canvas::errors::GraphError;
use graph_canvas::graph::Graph;
use graph_canvas::js::{
    JsInitialConnection, JsPartialConfig, JsPartialInitialNode, JsPartialNodeTemplate,
    JsPartialSlotTemplate, JsTemplateGroup,
};
use graph_canvas::layout::{layout_for, LayoutType};
use graph_canvas::menu::{
    context_menu_command, get_context_menu_items, ContextMenuAction, ContextMenuTarget,
    InteractionMode,
};
use graph_canvas::model::{
    Connection, FieldTemplate, FieldType, NodeTemplate, SlotPosition, SlotTemplate, SlotType,
    DEFAULT_NODE_HEIGHT_BITS, DEFAULT_NODE_WIDTH_BITS,
};
use graph_canvas::samples::get_test_template;

fn plain_template(id: &str, name: &str) -> NodeTemplate {
    let mut t = NodeTemplate::new(name);
    t.template_id = id.to_string();
    t
}

fn initial(name: &str, id: &str) -> InitialNode {
    let mut n = InitialNode::new(TemplateIdentifier::Name(name.to_string()));
    n.id = Some(id.to_string());
    n
}

#[test]
fn sample_template_has_eight_bounded_slots() {
    let t = get_test_template();
    assert_eq!(t.template_id, "test_node");
    assert_eq!(t.name, "Test Node");
    assert_eq!(t.min_instances, Some(1));
    assert_eq!(t.max_instances, None);
    let ids: Vec<&str> = t.slot_templates.iter().map(|s| s.id.as_str()).collect();
    assert_eq!(ids, vec!["first", "second", "third", "fourth", "fifth", "sixth", "seventh", "eigth"]);
    for s in &t.slot_templates {
        assert_eq!(s.slot_type, SlotType::Outgoing);
        assert_eq!(s.allowed_connections, vec!["test_node".to_string(), "Node".to_string()]);
        assert_eq!((s.min_connections, s.max_connections), (2, Some(3)));
    }
    assert_eq!(t.slot_templates[2].position, SlotPosition::Top);
    assert_eq!(t.slot_templates[7].position, SlotPosition::Left);
    let fields: Vec<(&str, FieldType, &str)> = t
        .field_templates
        .iter()
        .map(|f| (f.id.as_str(), f.field_type, f.default_value.as_str()))
        .collect();
    assert_eq!(
        fields,
        vec![
            ("bool_field", FieldType::Boolean, "true"),
            ("int_field", FieldType::Integer, "42"),
            ("string_field", FieldType::String, "Test"),
        ]
    );
}

#[test]
fn conformity_reports_each_malformed_slot() {
    let mut g = Graph::new();
    g.register_template(get_test_template());
    g.create_instance("test_node", 0, 0, Some("t1".to_string())).unwrap();
    match check_conformity(&g) {
        Err(GraphError::SaveFailed { reason }) => match *reason {
            GraphError::ListOfErrors(errors) => {
                assert_eq!(errors.len(), 8);
                match &errors[0] {
                    GraphError::SlotMalformed { template_name, slot_name, min, max, actual } => {
                        assert_eq!(template_name, "Test Node");
                        assert_eq!(slot_name, "First");
                        assert_eq!((*min, *max, *actual), (2, Some(3), 0));
                    }
                    other => panic!("unexpected {:?}", other),
                }
            }
            other => panic!("unexpected {:?}", other),
        },
        other => panic!("unexpected {:?}", other),
    }
    let mut ok = Graph::new();
    ok.register_template(plain_template("p", "P"));
    ok.create_instance("p", 0, 0, None).unwrap();
    assert!(check_conformity(&ok).is_ok());
}

fn malformed_slot_names(errors: &[GraphError]) -> Vec<String> {
    errors
        .iter()
        .map(|e| match e {
            GraphError::SlotMalformed { slot_name, .. } => slot_name.clone(),
            other => panic!("unexpected {:?}", other),
        })
        .collect()
}

#[test]
fn conformity_reports_each_slot_once_in_slot_order() {
    let mut g = Graph::new();
    g.register_template(get_test_template());
    g.create_instance("test_node", 0, 0, Some("t1".to_string())).unwrap();
    g.create_instance("test_node", 0, 0, Some("t2".to_string())).unwrap();
    let errors = match check_conformity(&g) {
        Err(GraphError::SaveFailed { reason }) => match *reason {
            GraphError::ListOfErrors(errors) => errors,
            other => panic!("unexpected {:?}", other),
        },
        other => panic!("unexpected {:?}", other),
    };
    assert_eq!(errors.len(), 16);
    let names = malformed_slot_names(&errors);
    let all = ["First", "Second", "Third", "Fourth", "Fifth", "Sixth", "Seventh", "Eigth"];
    let expected: Vec<String> = all.iter().chain(all.iter()).map(|s| s.to_string()).collect();
    assert_eq!(names, expected);
}

#[test]
fn initial_nodes_are_built_then_linked() {
    let mut g = Graph::new();
    let mut a = plain_template("a", "A");
    a.slot_templates.push(SlotTemplate::new("Out"));
    a.field_templates.push(FieldTemplate::new("Size", FieldType::Integer, "1"));
    let size_id = a.field_templates[0].id.clone();
    g.register_template(a);
    g.register_template(plain_template("b", "B"));

    let mut a1 = initial("A", "a1");
    a1.can_move = false;
    a1.initial_field_values.push(InitialFieldValue { field_template_id: size_id, value: "9".to_string() });
    a1.initial_connections.push(InitialConnection {
        host_slot_name: "Out".to_string(),
        target_instance_id: "b1".to_string(),
        can_delete: false,
    });
    a1.initial_connections.push(InitialConnection {
        host_slot_name: "Out".to_string(),
        target_instance_id: "missing".to_string(),
        can_delete: true,
    });
    a1.initial_connections.push(InitialConnection {
        host_slot_name: "Out".to_string(),
        target_instance_id: "b1".to_string(),
        can_delete: true,
    });
    let b1 = initial("B", "b1");
    let unknown = initial("Nope", "x1");
    assert!(g.create_initial_nodes(&vec![a1, b1, unknown]).is_ok());

    let caps = g.get_node_capabilities("a1").unwrap();
    assert!(!caps.instance.can_move);
    assert_eq!(caps.instance.fields[0].value, "9");
    assert_eq!((caps.instance.x, caps.instance.y), (INITIAL_COORDINATE_BITS, INITIAL_COORDINATE_BITS));
    let conns = g.get_node_connections("a1");
    assert_eq!(conns.len(), 1);
    assert_eq!(conns[0].target_node_id, "b1");
    assert_eq!(conns[0].target_slot_template_id, "incoming");
    assert!(!conns[0].can_delete);
    assert!(g.get_node_capabilities("b1").is_some());
    assert!(g.get_node_capabilities("x1").is_none());
}

#[test]
fn template_identifier_from_u128_is_hyphenated() {
    let id = TemplateIdentifier::from(0x0123456789abcdef0123456789abcdefu128);
    assert_eq!(id.to_string(), "01234567-89ab-cdef-0123-456789abcdef");
    let zero = TemplateIdentifier::from(0u128);
    assert_eq!(zero.to_string(), "00000000-0000-0000-0000-000000000000");
    assert_eq!(TemplateIdentifier::Name("N".to_string()).to_string(), "N");
}

#[test]
fn default_configuration() {
    let c = GraphCanvasConfig::default();
    assert_eq!(c.context_menu_size, (CONTEXT_MENU_WIDTH_BITS, CONTEXT_MENU_HEIGHT_BITS));
    assert_eq!(f64::from_bits(c.context_menu_size.0), 400.0);
    assert_eq!(f64::from_bits(c.default_node_width), 150.0);
    assert_eq!(f64::from_bits(c.default_node_height), 100.0);
    assert_eq!(c.connection_control_point_distance, CONTROL_POINT_DISTANCE_BITS);
    assert_eq!(f64::from_bits(c.connection_control_point_distance), 75.0);
    assert_eq!(f64::from_bits(c.slot_radius), 12.0);
    assert_eq!(c.slot_radius, SLOT_RADIUS_BITS);
    assert_eq!(c.grid_size, GRID_SIZE_BITS);
    assert_eq!(f64::from_bits(c.grid_size), 20.0);
    assert!(c.node_templates.is_empty() && c.template_groups.is_empty() && c.initial_nodes.is_empty());
    assert!(c.show_default_toolbar && !c.snap_to_grid && c.is_mutable && c.is_movable);
}

#[test]
fn templates_are_added_to_groups_once() {
    let mut c = GraphCanvasConfig::new();
    c.template_groups.push(TemplateGroup::new("g", "Group"));
    assert!(c.add_template_to_group("t1", "g"));
    assert!(!c.add_template_to_group("t1", "g"));
    assert!(!c.add_template_to_group("t1", "nogroup"));
    assert_eq!(c.template_groups[0].templates, vec!["t1".to_string()]);
}

#[test]
fn templates_by_group_and_group_map() {
    let mut c = GraphCanvasConfig::new();
    c.node_templates.push(plain_template("t1", "One"));
    c.node_templates.push(plain_template("t2", "Two"));
    let mut hidden = plain_template("t3", "Three");
    hidden.can_create = false;
    c.node_templates.push(hidden);
    c.node_templates.push(plain_template("t4", "Four"));
    let mut g = TemplateGroup::new("g", "Group");
    g.templates.push("t2".to_string());
    c.template_groups.push(g);
    let by_group: Vec<&str> = c.get_templates_by_group("g").iter().map(|t| t.name.as_str()).collect();
    assert_eq!(by_group, vec!["Two"]);
    assert!(c.get_templates_by_group("none").is_empty());

    let mut named = TemplateGroup::new("named", "Named");
    named.templates.push("t1".to_string());
    let mut cfg = GraphCanvasConfig::new();
    cfg.node_templates = c.node_templates.clone();
    cfg.template_groups.push(named);
    cfg.template_groups.push(TemplateGroup::new("empty", "Empty"));
    let map = cfg.get_template_group_map();
    assert_eq!(map.len(), 2);
    assert_eq!(map[0].0, "named");
    assert_eq!(map[0].1.iter().map(|t| t.template_id.as_str()).collect::<Vec<_>>(), vec!["t1"]);
    assert_eq!(map[1].0, "other");
    assert_eq!(map[1].1.iter().map(|t| t.template_id.as_str()).collect::<Vec<_>>(), vec!["t2", "t4"]);
}

#[test]
fn positions_and_types_from_names() {
    assert_eq!(SlotPosition::from("left".to_string()), SlotPosition::Left);
    assert_eq!(SlotPosition::from("Bottom".to_string()), SlotPosition::Bottom);
    assert_eq!(SlotPosition::from("right".to_string()), SlotPosition::Right);
    assert_eq!(SlotPosition::from("middle".to_string()), SlotPosition::Top);
    assert_eq!(SlotType::from("Output".to_string()), SlotType::Outgoing);
    assert_eq!(SlotType::from("Input".to_string()), SlotType::Incoming);
    assert_eq!(SlotType::from("other".to_string()), SlotType::Incoming);
}

#[test]
fn partial_descriptions_are_completed_with_defaults() {
    let slot = JsPartialSlotTemplate {
        name: "S".to_string(),
        slot_type: None,
        position: Some(SlotPosition::Bottom),
        allowed_connections: None,
        min_connections: Some(1),
        max_connections: None,
        can_modify_connections: None,
    };
    let node = JsPartialNodeTemplate {
        name: "N".to_string(),
        slot_templates: Some(vec![slot]),
        min_instances: Some(Some(2)),
        max_instances: None,
        can_delete: Some(false),
        can_create: None,
        default_width: None,
        default_height: Some(7),
        can_modify_slots: None,
    };
    let t = NodeTemplate::from(node);
    assert_eq!(t.name, "N");
    assert_eq!(t.template_id.len(), 36);
    assert_eq!(t.min_instances, Some(2));
    assert_eq!(t.max_instances, None);
    assert!(!t.can_delete && t.can_create && t.can_modify_slots && t.can_modify_fields);
    assert_eq!((t.default_width, t.default_height), (DEFAULT_NODE_WIDTH_BITS, 7));
    assert_eq!(t.slot_templates.len(), 1);
    let s = &t.slot_templates[0];
    assert_eq!((s.position, s.slot_type, s.min_connections, s.max_connections), (SlotPosition::Bottom, SlotType::Outgoing, 1, None));
    assert!(s.allowed_connections.is_empty() && s.can_modify_connections);

    let initial = JsPartialInitialNode {
        template_name: "N".to_string(),
        x: 1,
        y: 2,
        can_delete: None,
        can_move: Some(false),
        initial_connections: Some(vec![JsInitialConnection {
            host_slot_name: "S".to_string(),
            target_instance_id: "t".to_string(),
            can_delete: false,
        }]),
        id: Some("i".to_string()),
    };
    let n = InitialNode::from(initial);
    assert_eq!(n.template_identifier.to_string(), "N");
    assert!(matches!(n.template_identifier, TemplateIdentifier::Name(_)));
    assert!(n.can_delete && !n.can_move);
    assert_eq!(n.initial_connections.len(), 1);
    assert_eq!(n.initial_connections[0].target_instance_id, "t");
    assert_eq!(n.id, Some("i".to_string()));

    let config = GraphCanvasConfig::from(JsPartialConfig {
        context_menu_size: None,
        default_node_width: Some(3),
        default_node_height: None,
        connection_control_point_distance: None,
        slot_radius: None,
        node_templates: None,
        template_groups: Some(vec![JsTemplateGroup {
            id: "g".to_string(),
            name: "G".to_string(),
            description: Some("d".to_string()),
            templates: vec!["x".to_string()],
        }]),
        initial_nodes: None,
        show_default_toolbar: Some(false),
        snap_to_grid: None,
        grid_size: None,
        is_mutable: None,
        is_movable: Some(false),
    });
    assert_eq!(config.default_node_width, 3);
    assert_eq!(config.default_node_height, DEFAULT_NODE_HEIGHT_BITS);
    assert_eq!(config.template_groups.len(), 1);
    assert_eq!(config.template_groups[0].description, Some("d".to_string()));
    assert!(!config.show_default_toolbar && !config.is_movable && config.is_mutable);
    assert!(config.node_templates.is_empty() && config.initial_nodes.is_empty());
}

fn menu_graph() -> Graph {
    let mut g = Graph::new();
    g.register_template(get_test_template());
    g.create_instance("test_node", 0, 0, Some("t1".to_string())).unwrap();
    g
}

#[test]
fn menu_titles_name_their_target() {
    let g = menu_graph();
    assert_eq!(ContextMenuTarget::Node("t1".to_string()).get_title(&g), "Node: Test Node");
    assert_eq!(ContextMenuTarget::Node("zz".to_string()).get_title(&g), "Unknown Node");
    let slot = ContextMenuTarget::Slot { node_id: "t1".to_string(), slot_template_id: "third".to_string() };
    assert_eq!(slot.get_title(&g), "Slot: Third");
    let bad_slot = ContextMenuTarget::Slot { node_id: "t1".to_string(), slot_template_id: "zz".to_string() };
    assert_eq!(bad_slot.get_title(&g), "Unknown Slot");
    let field = ContextMenuTarget::Field { node_id: "t1".to_string(), field_template_id: "int_field".to_string() };
    assert_eq!(field.get_title(&g), "Field: Count");
    let bad_field = ContextMenuTarget::Field { node_id: "t1".to_string(), field_template_id: "zz".to_string() };
    assert_eq!(bad_field.get_title(&g), "Unknown Field");
    let conn = Connection {
        can_delete: true,
        host_node_id: "t1".to_string(),
        host_slot_template_id: "first".to_string(),
        target_node_id: "t1".to_string(),
        target_slot_template_id: "incoming".to_string(),
    };
    assert_eq!(ContextMenuTarget::Connection(conn).get_title(&g), "Connection");
}

#[test]
fn menu_items_depend_on_the_target() {
    let g = menu_graph();
    let items = get_context_menu_items(&ContextMenuTarget::Node("t1".to_string()), &g).unwrap();
    assert_eq!(items.len(), 1);
    assert_eq!(items[0].label, "Delete Node");
    assert_eq!(items[0].color, "#ff0000");
    assert!(matches!(items[0].action, ContextMenuAction::Delete));

    let int_field = ContextMenuTarget::Field { node_id: "t1".to_string(), field_template_id: "int_field".to_string() };
    let items = get_context_menu_items(&int_field, &g).unwrap();
    let labels: Vec<&str> = items.iter().map(|i| i.label.as_str()).collect();
    assert_eq!(labels, vec!["Current: 42", "Increment (+1)", "Decrement (-1)"]);
    assert!(matches!(items[1].action, ContextMenuAction::SetIntegerField(43)));
    assert!(matches!(items[2].action, ContextMenuAction::SetIntegerField(41)));

    let bool_field = ContextMenuTarget::Field { node_id: "t1".to_string(), field_template_id: "bool_field".to_string() };
    let items = get_context_menu_items(&bool_field, &g).unwrap();
    assert!(matches!(items[0].action, ContextMenuAction::SetBooleanField(true)));
    assert!(matches!(items[1].action, ContextMenuAction::SetBooleanField(false)));

    let string_field = ContextMenuTarget::Field { node_id: "t1".to_string(), field_template_id: "string_field".to_string() };
    let items = get_context_menu_items(&string_field, &g).unwrap();
    assert_eq!(items[0].label, "Current: Test");

    let missing = ContextMenuTarget::Field { node_id: "zz".to_string(), field_template_id: "x".to_string() };
    assert_eq!(get_context_menu_items(&missing, &g).unwrap_err(), "Node not found");
    let missing_field = ContextMenuTarget::Field { node_id: "t1".to_string(), field_template_id: "x".to_string() };
    assert_eq!(get_context_menu_items(&missing_field, &g).unwrap_err(), "Field template not found");
}

#[test]
fn menu_actions_become_commands() {
    let field = ContextMenuTarget::Field { node_id: "t1".to_string(), field_template_id: "int_field".to_string() };
    match context_menu_command(ContextMenuAction::SetIntegerField(-17), &field) {
        Some(GraphCommand::UpdateField { node_id, field_template_id, new_value }) => {
            assert_eq!((node_id.as_str(), field_template_id.as_str(), new_value.as_str()), ("t1", "int_field", "-17"));
        }
        other => panic!("unexpected {:?}", other),
    }
    match context_menu_command(ContextMenuAction::SetBooleanField(false), &field) {
        Some(GraphCommand::UpdateField { new_value, .. }) => assert_eq!(new_value, "false"),
        other => panic!("unexpected {:?}", other),
    }
    match context_menu_command(ContextMenuAction::Delete, &ContextMenuTarget::Node("n".to_string())) {
        Some(GraphCommand::DeleteNode(id)) => assert_eq!(id, "n"),
        other => panic!("unexpected {:?}", other),
    }
    assert!(context_menu_command(ContextMenuAction::EditField, &field).is_none());
    assert!(context_menu_command(ContextMenuAction::Delete, &field).is_none());
    let mut g = menu_graph();
    let cmd = context_menu_command(ContextMenuAction::SetIntegerField(5), &field).unwrap();
    g.execute_command(cmd).unwrap();
    let n = g.get_node_capabilities("t1").unwrap().instance;
    assert_eq!(n.fields[1].value, "5");
    let cmd = context_menu_command(ContextMenuAction::SetIntegerField(i32::MIN), &field).unwrap();
    g.execute_command(cmd).unwrap();
    let n = g.get_node_capabilities("t1").unwrap().instance;
    assert_eq!(n.fields[1].value, "-2147483648");
}

#[test]
fn modes_and_layouts_compare_by_variant() {
    assert_eq!(InteractionMode::Default, InteractionMode::Default);
    assert_ne!(InteractionMode::Default, InteractionMode::AddNode);
    assert_ne!(LayoutType::Free, LayoutType::Hierarchical);
    assert_eq!(LayoutType::ForceDirected, LayoutType::ForceDirected);
}

#[test]
fn slot_colours_follow_the_bounds() {
    assert_eq!(slot_fill_color(SlotType::Incoming, 0, 2, Some(3)), "#fff");
    assert_eq!(slot_fill_color(SlotType::Outgoing, 0, 2, Some(3)), "red");
    assert_eq!(slot_fill_color(SlotType::Outgoing, 1, 2, Some(3)), "orange");
    assert_eq!(slot_fill_color(SlotType::Outgoing, 2, 2, Some(3)), "lightgreen");
    assert_eq!(slot_fill_color(SlotType::Outgoing, 3, 2, Some(3)), "green");
    assert_eq!(slot_fill_color(SlotType::Outgoing, 1, 2, Some(1)), "purple");
    assert_eq!(slot_fill_color(SlotType::Outgoing, 5, 0, None), "lightgreen");
}

#[test]
fn a_cloned_graph_has_the_same_nodes() {
    let mut g = Graph::new();
    g.register_template(get_test_template());
    g.create_instance("test_node", 1, 2, Some("n1".to_string())).unwrap();
    let copy = g.clone();
    let caps = copy.get_node_capabilities("n1").unwrap();
    assert_eq!(caps.instance.template_id, "test_node");
    assert_eq!((caps.instance.x, caps.instance.y), (1, 2));
    assert_eq!(copy.instance_list().len(), 1);
    assert_eq!(copy.template_list().len(), 1);
}

#[test]
fn the_toolbar_offers_creatable_templates_without_groups() {
    let mut config = GraphCanvasConfig::new();
    assert!(config.toolbar_template_groups().is_empty());
    let mut hidden = plain_template("h", "Hidden");
    hidden.can_create = false;
    config.node_templates = vec![plain_template("a", "A"), hidden, plain_template("b", "B")];
    let groups = config.toolbar_template_groups();
    assert_eq!(groups.len(), 1);
    assert_eq!(groups[0].0, "All Templates");
    let names: Vec<&str> = groups[0].1.iter().map(|t| t.name.as_str()).collect();
    assert_eq!(names, vec!["A", "B"]);
}

#[test]
fn the_toolbar_offers_the_group_map_with_groups() {
    let mut config = GraphCanvasConfig::new();
    config.node_templates = vec![plain_template("a", "A"), plain_template("b", "B")];
    config.template_groups = vec![TemplateGroup::new("g", "Group")];
    config.add_template_to_group("a", "g");
    let groups = config.toolbar_template_groups();
    let ids: Vec<&str> = groups.iter().map(|(id, _)| id.as_str()).collect();
    assert_eq!(ids, vec!["g", "other"]);
    assert_eq!(groups[0].1[0].template_id, "a");
    assert_eq!(groups[1].1.iter().map(|t| t.template_id.as_str()).collect::<Vec<_>>(), vec!["b"]);
    assert_eq!(config.group_display_name("g"), "Group");
    assert_eq!(config.group_display_name("other"), "Other");
    assert_eq!(config.group_display_name("nope"), "nope");
}

#[test]
fn saving_copies_only_a_conforming_graph() {
    let mut g = Graph::new();
    g.register_template(plain_template("a", "A"));
    g.create_instance("a", 1, 2, Some("n".to_string())).unwrap();
    let copy = save(&g).unwrap();
    assert_eq!(copy.get_node_capabilities("n").unwrap().instance.x, 1);
    let mut h = Graph::new();
    h.register_template(get_test_template());
    h.create_instance("test_node", 0, 0, Some("t".to_string())).unwrap();
    match save(&h) {
        Err(GraphError::SaveFailed { reason }) => assert!(matches!(*reason, GraphError::ListOfErrors(ref es) if es.len() == 8)),
        _ => panic!("expected a failed save"),
    }
}

#[test]
fn layout_buttons_name_their_layouts() {
    assert_eq!(layout_for("hierarchical"), LayoutType::Hierarchical);
    assert_eq!(layout_for("force"), LayoutType::ForceDirected);
    assert_eq!(layout_for("free"), LayoutType::Free);
    assert_eq!(layout_for("anything"), LayoutType::Free);
}

#[test]
fn integer_fields_accept_what_std_parses() {
    let inputs = [
        "0", "-0", "+7", "007", "-2147483648", "2147483647", "2147483648", "-2147483649", "+", "-", "", " 1",
        "1 ", "12a", "\u{663}", "99999999999999999999",
    ];
    for input in inputs {
        let mut g = menu_graph();
        let accepted = g.update_field("t1", "int_field", input.to_string()).is_ok();
        assert_eq!(accepted, input.parse::<i32>().is_ok(), "{:?}", input);
    }
}
