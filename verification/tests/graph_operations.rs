use graph_canvas::commands::GraphCommand;
use graph_canvas::config::TemplateIdentifier;
use graph_canvas::errors::GraphError;
use graph_canvas::graph::Graph;
use graph_canvas::model::{
    Connection, FieldTemplate, FieldType, NodeInstance, NodeTemplate, SlotPosition, SlotTemplate,
    SlotType, DEFAULT_NODE_HEIGHT_BITS, DEFAULT_NODE_WIDTH_BITS,
};
use graph_canvas::queries::NodeTemplateInfo;

fn slot(id: &str, name: &str, allowed: &[&str], min: usize, max: Option<usize>) -> SlotTemplate {
    SlotTemplate {
        id: id.to_string(),
        name: name.to_string(),
        position: SlotPosition::Right,
        slot_type: SlotType::Outgoing,
        allowed_connections: allowed.iter().map(|s| s.to_string()).collect(),
        min_connections: min,
        max_connections: max,
        can_modify_connections: true,
    }
}

fn field(id: &str, name: &str, field_type: FieldType, default_value: &str) -> FieldTemplate {
    FieldTemplate {
        id: id.to_string(),
        name: name.to_string(),
        field_type,
        default_value: default_value.to_string(),
    }
}

fn template(id: &str, name: &str, slots: Vec<SlotTemplate>, fields: Vec<FieldTemplate>) -> NodeTemplate {
    NodeTemplate {
        template_id: id.to_string(),
        name: name.to_string(),
        slot_templates: slots,
        field_templates: fields,
        max_instances: None,
        min_instances: None,
        can_delete: true,
        can_create: true,
        can_modify_slots: true,
        can_modify_fields: true,
        default_width: DEFAULT_NODE_WIDTH_BITS,
        default_height: DEFAULT_NODE_HEIGHT_BITS,
    }
}

/// A graph with template "a" (slot "out" to "B" nodes, at most 2) and
/// template "b" (no slots), one node of each: "a1" and "b1", "b2".
fn small_graph() -> Graph {
    let mut g = Graph::new();
    g.register_template(template(
        "a",
        "A",
        vec![slot("out", "Out", &["b"], 0, Some(2))],
        vec![
            field("flag", "Flag", FieldType::Boolean, "true"),
            field("count", "Count", FieldType::Integer, "42"),
            field("label", "Label", FieldType::String, "hello"),
        ],
    ));
    g.register_template(template("b", "B", vec![], vec![]));
    g.create_instance("a", 1, 2, Some("a1".to_string())).unwrap();
    g.create_instance("b", 3, 4, Some("b1".to_string())).unwrap();
    g.create_instance("b", 5, 6, Some("b2".to_string())).unwrap();
    g
}

fn link(host: &str, slot: &str, target: &str) -> Connection {
    Connection {
        can_delete: true,
        host_node_id: host.to_string(),
        host_slot_template_id: slot.to_string(),
        target_node_id: target.to_string(),
        target_slot_template_id: "incoming".to_string(),
    }
}

fn other_message(e: &GraphError) -> Option<String> {
    match e {
        GraphError::Other(m) => Some(m.clone()),
        _ => None,
    }
}

#[test]
fn new_graph_is_empty_and_valid() {
    let g = Graph::new();
    assert!(g.is_graph_valid());
    assert!(g.get_node_template_by_name("A").is_none());
    assert!(g.get_node_capabilities("x").is_none());
    assert!(g.get_node_connections("x").is_empty());
}

#[test]
fn registered_template_gains_incoming_slot() {
    let mut g = Graph::new();
    g.register_template(template("a", "A", vec![slot("out", "Out", &[], 0, None)], vec![]));
    let t = g
        .get_node_template_by_identifier(&TemplateIdentifier::Id("a".to_string()))
        .unwrap();
    assert_eq!(t.slot_templates.len(), 2);
    assert_eq!(t.slot_templates[0].id, "out");
    let incoming = &t.slot_templates[1];
    assert_eq!(incoming.id, "incoming");
    assert_eq!(incoming.name, "Incoming");
    assert_eq!(incoming.position, SlotPosition::Left);
    assert_eq!(incoming.slot_type, SlotType::Incoming);
    assert_eq!(incoming.min_connections, 0);
    assert_eq!(incoming.max_connections, None);
    assert!(incoming.can_modify_connections);
    let by_name = g
        .get_node_template_by_identifier(&TemplateIdentifier::Name("A".to_string()))
        .unwrap();
    assert_eq!(by_name.template_id, "a");
    assert!(g
        .get_node_template_by_identifier(&TemplateIdentifier::Name("Z".to_string()))
        .is_none());
}

#[test]
fn created_node_is_fresh() {
    let g = small_graph();
    let caps = g.get_node_capabilities("a1").unwrap();
    let n = caps.instance;
    assert_eq!(n.template_id, "a");
    assert_eq!((n.x, n.y), (1, 2));
    assert_eq!(n.width, DEFAULT_NODE_WIDTH_BITS);
    assert_eq!(n.slots.len(), 2);
    assert_eq!(n.slots[0].slot_template_id, "out");
    assert_eq!(n.slots[1].slot_template_id, "incoming");
    assert!(n.slots.iter().all(|s| s.connections.is_empty() && s.can_modify));
    let values: Vec<&str> = n.fields.iter().map(|f| f.value.as_str()).collect();
    assert_eq!(values, vec!["true", "42", "hello"]);
    assert!(n.can_delete && n.can_move && n.can_modify_connections && n.can_modify_fields);
    assert_eq!(caps.template.name, "A");
}

#[test]
fn generated_ids_have_the_hyphenated_form() {
    let mut g = small_graph();
    let id = g.create_instance("b", 0, 0, None).unwrap();
    assert_eq!(id.len(), 36);
    for (i, c) in id.chars().enumerate() {
        if i == 8 || i == 13 || i == 18 || i == 23 {
            assert_eq!(c, '-');
        } else {
            assert!(c.is_ascii_hexdigit() && !c.is_ascii_uppercase());
        }
    }
    assert!(g.get_node_capabilities(&id).is_some());
    let other = g.create_instance("b", 0, 0, None).unwrap();
    assert_ne!(id, other);
}

#[test]
fn creating_from_unknown_template_fails() {
    let mut g = small_graph();
    let before = format!("{:?}", g);
    match g.create_instance("zzz", 0, 0, None) {
        Err(GraphError::NodeCreationFailed { node_template_id, node_template_name, reason }) => {
            assert_eq!(node_template_id, "zzz");
            assert_eq!(node_template_name, "?");
            assert!(matches!(*reason, GraphError::TemplateNotFound(ref t) if t == "zzz"));
        }
        other => panic!("unexpected {:?}", other),
    }
    assert_eq!(before, format!("{:?}", g));
}

#[test]
fn creating_beyond_the_maximum_fails() {
    let mut g = Graph::new();
    let mut t = template("m", "M", vec![], vec![]);
    t.max_instances = Some(1);
    g.register_template(t);
    assert!(g.node_template_can_add_instance("m"));
    g.create_instance("m", 0, 0, Some("m1".to_string())).unwrap();
    assert!(!g.node_template_can_add_instance("m"));
    match g.create_instance("m", 0, 0, Some("m2".to_string())) {
        Err(GraphError::NodeCreationFailed { node_template_name, reason, .. }) => {
            assert_eq!(node_template_name, "M");
            assert_eq!(other_message(&reason).unwrap(), "Maximum instances reached");
        }
        other => panic!("unexpected {:?}", other),
    }
    assert_eq!(g.instances_of_node_template("m"), vec!["m1".to_string()]);
}

#[test]
fn creating_from_uncreatable_template_fails() {
    let mut g = Graph::new();
    let mut t = template("u", "U", vec![], vec![]);
    t.can_create = false;
    g.register_template(t);
    match g.create_instance("u", 0, 0, None) {
        Err(GraphError::NodeCreationFailed { reason, .. }) => {
            assert_eq!(other_message(&reason).unwrap(), "Template cannot be created");
        }
        other => panic!("unexpected {:?}", other),
    }
}

#[test]
fn delete_undoes_connect() {
    let mut g = small_graph();
    let before = format!("{:?}", g);
    g.connect_slots(link("a1", "out", "b1")).unwrap();
    let conns = g.get_node_connections("a1");
    assert_eq!(conns.len(), 1);
    assert_eq!(conns[0], link("a1", "out", "b1"));
    g.delete_connection(&link("a1", "out", "b1")).unwrap();
    assert_eq!(before, format!("{:?}", g));
}

#[test]
fn deleted_connection_is_gone() {
    let mut g = small_graph();
    g.connect_slots(link("a1", "out", "b1")).unwrap();
    g.connect_slots(link("a1", "out", "b2")).unwrap();
    g.delete_connection(&link("a1", "out", "b1")).unwrap();
    let conns = g.get_node_connections("a1");
    assert_eq!(conns, vec![link("a1", "out", "b2")]);
}

#[test]
fn connections_are_refused_for_the_documented_reasons() {
    let mut g = small_graph();
    let invalid = |r: Result<(), GraphError>| -> String {
        match r {
            Err(GraphError::ConnectionCreationFailed { node_template_name, slot_template_name, reason }) => {
                assert_eq!(node_template_name, "A");
                assert_eq!(slot_template_name, "Out");
                match *reason {
                    GraphError::InvalidConnection { reason, .. } => reason,
                    other => panic!("unexpected {:?}", other),
                }
            }
            other => panic!("unexpected {:?}", other),
        }
    };
    assert_eq!(
        invalid(g.connect_slots(link("a1", "out", "a1"))),
        "This slot type cannot connect to the attempted node template"
    );
    g.connect_slots(link("a1", "out", "b1")).unwrap();
    assert_eq!(invalid(g.connect_slots(link("a1", "out", "b1"))), "Connection alrady exists");
    g.connect_slots(link("a1", "out", "b2")).unwrap();
    g.create_instance("b", 0, 0, Some("b3".to_string())).unwrap();
    assert_eq!(invalid(g.connect_slots(link("a1", "out", "b3"))), "Slot's max length is reached");
    assert_eq!(g.get_node_connections("a1").len(), 2);
}

#[test]
fn a_connection_never_exceeds_the_maximum() {
    let mut g = small_graph();
    for target in ["b1", "b2"] {
        g.connect_slots(link("a1", "out", target)).unwrap();
    }
    g.create_instance("b", 0, 0, Some("b3".to_string())).unwrap();
    assert!(g.connect_slots(link("a1", "out", "b3")).is_err());
    let caps = g.get_slot_capabilities("a1", "out").unwrap();
    assert!(caps.instance.connections.len() <= caps.template.max_connections.unwrap());
}

#[test]
fn locked_templates_refuse_connections() {
    let mut g = Graph::new();
    let mut locked = template("a", "A", vec![slot("out", "Out", &["b"], 0, None)], vec![]);
    locked.can_modify_slots = false;
    g.register_template(locked);
    let mut slot_locked = slot("out", "Out", &["b"], 0, None);
    slot_locked.can_modify_connections = false;
    g.register_template(template("c", "C", vec![slot_locked], vec![]));
    g.register_template(template("b", "B", vec![], vec![]));
    g.create_instance("a", 0, 0, Some("a1".to_string())).unwrap();
    g.create_instance("c", 0, 0, Some("c1".to_string())).unwrap();
    g.create_instance("b", 0, 0, Some("b1".to_string())).unwrap();
    match g.connect_slots(link("a1", "out", "b1")) {
        Err(GraphError::ConnectionCreationFailed { reason, .. }) => {
            assert!(matches!(*reason, GraphError::NodeTemplateLocked { ref name } if name == "A"));
        }
        other => panic!("unexpected {:?}", other),
    }
    match g.connect_slots(link("c1", "out", "b1")) {
        Err(GraphError::ConnectionCreationFailed { reason, .. }) => {
            assert!(matches!(*reason, GraphError::SlotTemplateLocked { ref name } if name == "Out"));
        }
        other => panic!("unexpected {:?}", other),
    }
}

#[test]
fn locked_connections_are_not_deleted() {
    let mut g = small_graph();
    let mut c = link("a1", "out", "b1");
    c.can_delete = false;
    g.connect_slots(c.clone()).unwrap();
    let before = format!("{:?}", g);
    match g.delete_connection(&c) {
        Err(GraphError::ConnectionDeletionFailed { connection, reason }) => {
            assert_eq!(connection, c);
            match *reason {
                GraphError::ConnectionDeletionFailed { reason, .. } => {
                    assert!(matches!(*reason, GraphError::ConnectionLocked));
                }
                other => panic!("unexpected {:?}", other),
            }
        }
        other => panic!("unexpected {:?}", other),
    }
    assert_eq!(before, format!("{:?}", g));
    match g.remove_all_incoming_connections("b1") {
        Err(GraphError::SomeConnectionDeletionsFailed { failures }) => assert_eq!(failures.len(), 1),
        other => panic!("unexpected {:?}", other),
    }
}

#[test]
fn deleting_a_node_removes_its_incoming_connections() {
    let mut g = small_graph();
    g.connect_slots(link("a1", "out", "b1")).unwrap();
    g.connect_slots(link("a1", "out", "b2")).unwrap();
    g.delete_node_instance("b1").unwrap();
    assert!(g.get_node_capabilities("b1").is_none());
    assert_eq!(g.get_node_connections("a1"), vec![link("a1", "out", "b2")]);
}

#[test]
fn deleting_an_unknown_node_fails() {
    let mut g = small_graph();
    match g.delete_node_instance("nope") {
        Err(GraphError::NodeDeletionFailed { node_id, node_template_name, reason }) => {
            assert_eq!(node_id, "nope");
            assert_eq!(node_template_name, "?");
            assert!(matches!(*reason, GraphError::NodeNotFound(ref id) if id == "nope"));
        }
        other => panic!("unexpected {:?}", other),
    }
}

#[test]
fn deleting_below_the_minimum_fails() {
    let mut g = Graph::new();
    let mut t = template("m", "M", vec![], vec![]);
    t.min_instances = Some(1);
    g.register_template(t);
    g.create_instance("m", 0, 0, Some("m1".to_string())).unwrap();
    match g.delete_node_instance("m1") {
        Err(GraphError::NodeDeletionFailed { node_template_name, reason, .. }) => {
            assert_eq!(node_template_name, "M");
            assert_eq!(other_message(&reason).unwrap(), "Minimum instances reached");
        }
        other => panic!("unexpected {:?}", other),
    }
    assert!(g.get_node_capabilities("m1").is_some());
}

#[test]
fn clearing_slots() {
    let mut g = small_graph();
    g.connect_slots(link("a1", "out", "b1")).unwrap();
    g.connect_slots(link("a1", "out", "b2")).unwrap();
    g.delete_slot_connections("b1", "incoming").unwrap();
    assert_eq!(g.get_node_connections("a1"), vec![link("a1", "out", "b2")]);
    g.delete_slot_connections("a1", "out").unwrap();
    assert!(g.get_node_connections("a1").is_empty());
    match g.delete_slot_connections("a1", "missing") {
        Err(GraphError::SlotNotFound { node_id, slot_id }) => {
            assert_eq!(node_id, "a1");
            assert_eq!(slot_id, "missing");
        }
        other => panic!("unexpected {:?}", other),
    }
}

#[test]
fn fields_accept_values_of_their_type() {
    let mut g = small_graph();
    let value = |g: &Graph, id: &str| -> String {
        let n = g.get_node_capabilities("a1").unwrap().instance;
        n.fields.iter().find(|f| f.field_template_id == id).unwrap().value.clone()
    };
    g.update_field("a1", "flag", "false".to_string()).unwrap();
    assert_eq!(value(&g, "flag"), "false");
    let err = g.update_field("a1", "flag", "yes".to_string()).unwrap_err();
    assert_eq!(other_message(&err).unwrap(), "Invalid boolean value");
    for ok in ["12", "-5", "+7", "2147483647", "-2147483648"] {
        g.update_field("a1", "count", ok.to_string()).unwrap();
        assert_eq!(value(&g, "count"), ok);
    }
    for bad in ["abc", "", "-", "1.5", " 3", "2147483648"] {
        let err = g.update_field("a1", "count", bad.to_string()).unwrap_err();
        assert_eq!(other_message(&err).unwrap(), "Invalid integer value");
    }
    g.update_field("a1", "label", "anything at all".to_string()).unwrap();
    assert_eq!(value(&g, "label"), "anything at all");
    let err = g.update_field("zz", "label", "x".to_string()).unwrap_err();
    assert_eq!(other_message(&err).unwrap(), "Node instance not found");
    let err = g.update_field("a1", "nothing", "x".to_string()).unwrap_err();
    assert_eq!(other_message(&err).unwrap(), "Field template not found");
}

#[test]
fn commands_run_their_operations() {
    let mut g = small_graph();
    g.execute_command(GraphCommand::CreateNode { template_id: "b".to_string(), x: 7, y: 8 })
        .unwrap();
    assert_eq!(g.instances_of_node_template("b").len(), 3);
    g.execute_command(GraphCommand::CreateConnection(link("a1", "out", "b1"))).unwrap();
    assert_eq!(g.get_node_connections("a1").len(), 1);
    g.execute_command(GraphCommand::UpdateField {
        node_id: "a1".to_string(),
        field_template_id: "count".to_string(),
        new_value: "3".to_string(),
    })
    .unwrap();
    g.execute_command(GraphCommand::DeleteSlotConnections {
        node_id: "a1".to_string(),
        slot_template_id: "out".to_string(),
    })
    .unwrap();
    assert!(g.get_node_connections("a1").is_empty());
    g.execute_command(GraphCommand::DeleteNode("b2".to_string())).unwrap();
    assert!(g.get_node_capabilities("b2").is_none());
}

#[test]
fn refused_commands_change_nothing() {
    let mut g = small_graph();
    let before = format!("{:?}", g);
    assert!(g
        .execute_command(GraphCommand::CreateNode { template_id: "zz".to_string(), x: 0, y: 0 })
        .is_err());
    assert!(g.execute_command(GraphCommand::CreateConnection(link("a1", "out", "a1"))).is_err());
    assert!(g
        .execute_command(GraphCommand::UpdateField {
            node_id: "a1".to_string(),
            field_template_id: "count".to_string(),
            new_value: "x".to_string(),
        })
        .is_err());
    assert_eq!(before, format!("{:?}", g));
}

#[test]
fn validity_follows_slot_bounds() {
    let mut g = Graph::new();
    g.register_template(template("a", "A", vec![slot("out", "Out", &["b"], 1, Some(1))], vec![]));
    g.register_template(template("b", "B", vec![], vec![]));
    g.create_instance("a", 0, 0, Some("a1".to_string())).unwrap();
    g.create_instance("b", 0, 0, Some("b1".to_string())).unwrap();
    assert!(!g.is_graph_valid());
    g.connect_slots(link("a1", "out", "b1")).unwrap();
    assert!(g.is_graph_valid());
}

#[test]
fn node_instance_new_adds_the_incoming_slot() {
    let t = template("a", "A", vec![slot("out", "Out", &[], 0, None)], vec![field("f", "F", FieldType::String, "d")]);
    let n = NodeInstance::new(&t, "n".to_string(), 5, 6);
    assert_eq!(n.slots.len(), 2);
    assert_eq!(n.slots[1].slot_template_id, "incoming");
    assert_eq!(n.slots[1].node_template_id, "a");
    assert_eq!(n.fields[0].value, "d");
    assert_eq!((n.x, n.y), (5, 6));
}

#[test]
fn slot_templates_are_found_by_id_and_name() {
    let t = template("a", "A", vec![slot("s1", "One", &[], 0, None), slot("s2", "Two", &[], 0, None)], vec![]);
    assert_eq!(t.get_slot_template("s2").unwrap().name, "Two");
    assert_eq!(t.get_slot_template_by_name("One").unwrap().id, "s1");
    assert!(t.get_slot_template("s3").is_none());
}

#[test]
fn allowed_connections_name_template_ids() {
    let mut g = Graph::new();
    g.register_template(template("a", "A", vec![slot("out", "Out", &["B"], 0, None)], vec![]));
    g.register_template(template("b", "B", vec![], vec![]));
    g.create_instance("a", 0, 0, Some("a1".to_string())).unwrap();
    g.create_instance("b", 0, 0, Some("b1".to_string())).unwrap();
    match g.is_valid_connection(&link("a1", "out", "b1")) {
        Err(GraphError::InvalidConnection { reason, .. }) => {
            assert_eq!(reason, "This slot type cannot connect to the attempted node template")
        }
        other => panic!("unexpected {:?}", other),
    }
    let mut by_id = Graph::new();
    by_id.register_template(template("a", "A", vec![slot("out", "Out", &["b"], 0, None)], vec![]));
    by_id.register_template(template("b", "B", vec![], vec![]));
    by_id.create_instance("a", 0, 0, Some("a1".to_string())).unwrap();
    by_id.create_instance("b", 0, 0, Some("b1".to_string())).unwrap();
    assert!(by_id.is_valid_connection(&link("a1", "out", "b1")).is_ok());
}

#[test]
fn a_node_with_a_locked_connection_is_not_deleted() {
    let mut g = small_graph();
    let mut locked = link("a1", "out", "b1");
    locked.can_delete = false;
    g.connect_slots(locked.clone()).unwrap();
    g.connect_slots(link("a1", "out", "b2")).unwrap();
    match g.delete_node_instance("a1") {
        Err(GraphError::NodeDeletionFailed { node_id, node_template_name, reason }) => {
            assert_eq!((node_id.as_str(), node_template_name.as_str()), ("a1", "A"));
            match *reason {
                GraphError::SomeConnectionDeletionsFailed { failures } => assert_eq!(failures.len(), 1),
                other => panic!("unexpected {:?}", other),
            }
        }
        other => panic!("unexpected {:?}", other),
    }
    assert!(g.get_node_capabilities("a1").is_some());
    assert_eq!(g.get_node_connections("a1"), vec![locked.clone()]);
    match g.delete_node_instance("b1") {
        Err(GraphError::NodeDeletionFailed { reason, .. }) => {
            assert!(matches!(*reason, GraphError::SomeConnectionDeletionsFailed { .. }))
        }
        other => panic!("unexpected {:?}", other),
    }
    assert!(g.get_node_capabilities("b1").is_some());
}

#[test]
fn a_command_does_what_its_operation_does() {
    let base = small_graph();
    let same = |a: &Graph, b: &Graph| assert_eq!(format!("{:?}", a), format!("{:?}", b));

    let (mut a, mut b) = (base.clone(), base.clone());
    let r1 = a.execute_command(GraphCommand::CreateConnection(link("a1", "out", "b1")));
    let r2 = b.connect_slots(link("a1", "out", "b1"));
    assert_eq!(format!("{:?}", r1), format!("{:?}", r2));
    same(&a, &b);

    let r1 = a.execute_command(GraphCommand::CreateConnection(link("a1", "out", "b1")));
    let r2 = b.connect_slots(link("a1", "out", "b1"));
    assert!(r1.is_err());
    assert_eq!(format!("{:?}", r1), format!("{:?}", r2));
    same(&a, &b);

    let r1 = a.execute_command(GraphCommand::DeleteNode("b1".to_string()));
    let r2 = b.delete_node_instance("b1");
    assert_eq!(format!("{:?}", r1), format!("{:?}", r2));
    same(&a, &b);

    let r1 = a.execute_command(GraphCommand::UpdateField {
        node_id: "a1".to_string(),
        field_template_id: "count".to_string(),
        new_value: "x".to_string(),
    });
    let r2 = b.update_field("a1", "count", "x".to_string());
    assert!(r1.is_err());
    assert_eq!(format!("{:?}", r1), format!("{:?}", r2));
    same(&a, &b);

    let r1 = a.execute_command(GraphCommand::CreateNode { template_id: "zz".to_string(), x: 0, y: 0 });
    let r2 = b.create_instance("zz", 0, 0, None).map(|_| ());
    assert_eq!(format!("{:?}", r1), format!("{:?}", r2));
    same(&a, &b);
}
