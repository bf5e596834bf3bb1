use graph_canvas::decimal::{i32_text, usize_text};
use graph_canvas::errors::GraphError;
use graph_canvas::model::Connection;

fn connection() -> Connection {
    Connection {
        can_delete: true,
        host_node_id: "a".to_string(),
        host_slot_template_id: "out".to_string(),
        target_node_id: "b".to_string(),
        target_slot_template_id: "in".to_string(),
    }
}

#[test]
fn plain_errors_show_their_message() {
    assert_eq!(GraphError::Other("boom".to_string()).to_string(), "Other error: boom");
    assert_eq!(GraphError::NodeNotFound("n1".to_string()).to_string(), "Node not found: n1");
    assert_eq!(GraphError::TemplateNotFound("t".to_string()).to_string(), "Template not found: t");
    assert_eq!(GraphError::ValidationFailed("bad".to_string()).to_string(), "Validation failed: bad");
    assert_eq!(GraphError::LockFailed("busy".to_string()).to_string(), "Lock acquisition failed: busy");
    assert_eq!(GraphError::SetupFailed("no canvas".to_string()).to_string(), "Setup failed: no canvas");
    assert_eq!(GraphError::GraphLockFailed.to_string(), "Could not obtain graph lock");
    assert_eq!(GraphError::ConnectionLocked.to_string(), "Connection is locked and cannot be deleted");
    assert_eq!(GraphError::SlotInstanceLocked.to_string(), "Node Instance is locked and cannot be modified");
    assert_eq!(GraphError::NodeInstanceLocked.to_string(), "Node Instance is locked and cannot be modified");
    assert_eq!(
        GraphError::SlotTemplateLocked { name: "Out".to_string() }.to_string(),
        "Slot Template is locked and cannot be modified: Out"
    );
    assert_eq!(
        GraphError::NodeTemplateLocked { name: "Task".to_string() }.to_string(),
        "Node Template is locked and cannot be modified: Task"
    );
}

#[test]
fn slot_not_found_names_slot_then_node() {
    let e = GraphError::SlotNotFound { node_id: "n".to_string(), slot_id: "s".to_string() };
    assert_eq!(e.to_string(), "Slot s not found on node n");
}

#[test]
fn invalid_connection_names_both_ends() {
    let e = GraphError::InvalidConnection { connection: connection(), reason: "locked".to_string() };
    assert_eq!(e.to_string(), "Invalid connection from a:out to b:in - locked");
}

#[test]
fn configuration_error_shows_the_wrapped_message() {
    let e = GraphError::ConfigurationError(
        "initial nodes".to_string(),
        Box::new(GraphError::NodeNotFound("x".to_string())),
    );
    assert_eq!(e.to_string(), "Configuration error: initial nodes; Node not found: x");
}

#[test]
fn wrapped_reasons_show_their_debug_form() {
    let inner = GraphError::Other("why".to_string());
    let debug = format!("{:#?}", inner);
    let save = GraphError::SaveFailed { reason: Box::new(GraphError::Other("why".to_string())) };
    assert_eq!(save.to_string(), format!("Save action failed. \nReason: {}", debug));
    let created = GraphError::NodeCreationFailed {
        node_template_id: "t1".to_string(),
        node_template_name: "Task".to_string(),
        reason: Box::new(GraphError::Other("why".to_string())),
    };
    assert_eq!(created.to_string(), format!("Node creation failed: t1\n Template name: Task\n Reason: {}", debug));
    let deleted = GraphError::NodeDeletionFailed {
        node_id: "n1".to_string(),
        node_template_name: "Task".to_string(),
        reason: Box::new(GraphError::Other("why".to_string())),
    };
    assert_eq!(deleted.to_string(), format!("Node deletion failed: n1\n Template name: Task\n Reason: {}", debug));
    let cleared = GraphError::SlotDeletionFailed {
        slot_name: "Out".to_string(),
        reason: Box::new(GraphError::Other("why".to_string())),
    };
    assert_eq!(cleared.to_string(), format!("Slot deletion failed: Out\n Reason: {}", debug));
    let connecting = GraphError::ConnectionCreationFailed {
        node_template_name: "Task".to_string(),
        slot_template_name: "Out".to_string(),
        reason: Box::new(GraphError::Other("why".to_string())),
    };
    assert_eq!(
        connecting.to_string(),
        format!("Connection Creation Failed. From node Task, slot Out; Reason: {}", debug)
    );
}

#[test]
fn connection_deletion_failure_shows_connection_and_reason() {
    let e = GraphError::ConnectionDeletionFailed {
        connection: connection(),
        reason: Box::new(GraphError::ConnectionLocked),
    };
    let expected = format!(
        "Connection deletion failed; {:?}; Connection is locked and cannot be deleted",
        connection()
    );
    assert_eq!(e.to_string(), expected);
}

#[test]
fn deletion_failures_list_each_message_in_order() {
    let e = GraphError::SomeConnectionDeletionsFailed {
        failures: vec![GraphError::ConnectionLocked, GraphError::NodeNotFound("n".to_string())],
    };
    assert_eq!(
        e.to_string(),
        "Some connections in the requested action were not deletedConnection is locked and cannot be deletedNode not found: n"
    );
    let s = GraphError::SomeSlotDeletionsFailed { failures: vec![] };
    assert_eq!(s.to_string(), "Some slots in the requested action were not cleared");
}

#[test]
fn list_of_errors_shows_each_debug_form() {
    let e = GraphError::ListOfErrors(vec![GraphError::ConnectionLocked, GraphError::Other("x".to_string())]);
    let expected = format!("{:#?}{:#?}", GraphError::ConnectionLocked, GraphError::Other("x".to_string()));
    assert_eq!(e.to_string(), expected);
    assert_eq!(GraphError::ListOfErrors(vec![]).to_string(), "");
}

#[test]
fn malformed_slot_shows_its_counts() {
    let e = GraphError::SlotMalformed {
        template_name: "Task".to_string(),
        slot_name: "Out".to_string(),
        min: 1,
        max: Some(3),
        actual: 12,
    };
    assert_eq!(
        e.to_string(),
        "Slot is not well-formed. \nTemplate Name: Task, Slot Name: Out, Minimum Connections: 1, Maximum Connections: Some(\n    3,\n), Current Number of Instances: 12"
    );
    let unbounded = GraphError::SlotMalformed {
        template_name: "Task".to_string(),
        slot_name: "In".to_string(),
        min: 2,
        max: None,
        actual: 0,
    };
    assert_eq!(
        unbounded.to_string(),
        "Slot is not well-formed. \nTemplate Name: Task, Slot Name: In, Minimum Connections: 2, Maximum Connections: None, Current Number of Instances: 0"
    );
}

#[test]
fn decimal_text_of_unsigned_numbers() {
    assert_eq!(usize_text(0), "0");
    assert_eq!(usize_text(7), "7");
    assert_eq!(usize_text(10), "10");
    assert_eq!(usize_text(1234567), "1234567");
    assert_eq!(usize_text(usize::MAX), usize::MAX.to_string());
}

#[test]
fn decimal_text_of_signed_numbers() {
    assert_eq!(i32_text(0), "0");
    assert_eq!(i32_text(-17), "-17");
    assert_eq!(i32_text(42), "42");
    assert_eq!(i32_text(i32::MIN), "-2147483648");
    assert_eq!(i32_text(i32::MAX), "2147483647");
}

#[test]
fn generated_ids_are_random_version_four_identifiers() {
    for _ in 0..8 {
        let id = graph_canvas::ids::generate_id();
        let c: Vec<char> = id.chars().collect();
        assert_eq!(c.len(), 36);
        assert_eq!((c[8], c[13], c[18], c[23]), ('-', '-', '-', '-'));
        assert_eq!(c[14], '4');
        assert!("89ab".contains(c[19]), "{}", id);
    }
}
