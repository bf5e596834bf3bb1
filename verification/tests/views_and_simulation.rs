use graph_canvas::graph::Graph;
use graph_canvas::layout::LayoutType;
use graph_canvas::model::{
    Connection, NodeTemplate, SlotPosition, SlotTemplate, SlotType, DEFAULT_NODE_HEIGHT_BITS,
    DEFAULT_NODE_WIDTH_BITS,
};
use graph_canvas::views::{
    build_connection_graph, LayoutEngine, LayoutSnapshot, NodePosition, ViewState,
    MAX_SIMULATION_STEPS, ZOOM_ONE_BITS,
};

fn linked_template() -> NodeTemplate {
    NodeTemplate {
        template_id: "n".to_string(),
        name: "N".to_string(),
        slot_templates: vec![SlotTemplate {
            id: "out".to_string(),
            name: "Out".to_string(),
            position: SlotPosition::Right,
            slot_type: SlotType::Outgoing,
            allowed_connections: vec!["n".to_string()],
            min_connections: 0,
            max_connections: None,
            can_modify_connections: true,
        }],
        field_templates: vec![],
        max_instances: None,
        min_instances: None,
        can_delete: true,
        can_create: true,
        can_modify_slots: true,
        can_modify_fields: true,
        default_width: DEFAULT_NODE_WIDTH_BITS,
        default_height: DEFAULT_NODE_HEIGHT_BITS,
    }
}

fn link(host: &str, target: &str) -> Connection {
    Connection {
        can_delete: true,
        host_node_id: host.to_string(),
        host_slot_template_id: "out".to_string(),
        target_node_id: target.to_string(),
        target_slot_template_id: "incoming".to_string(),
    }
}

/// Nodes "p", "q", "r" with connections p->q, p->r, q->r.
fn three_nodes() -> Graph {
    let mut g = Graph::new();
    g.register_template(linked_template());
    g.create_instance("n", 10, 20, Some("p".to_string())).unwrap();
    g.create_instance("n", 30, 40, Some("q".to_string())).unwrap();
    g.create_instance("n", 50, 60, Some("r".to_string())).unwrap();
    g.connect_slots(link("p", "q")).unwrap();
    g.connect_slots(link("p", "r")).unwrap();
    g.connect_slots(link("q", "r")).unwrap();
    g
}

fn position(g: &Graph, id: &str) -> (u64, u64) {
    let caps = g.get_node_capabilities(id).unwrap();
    (caps.instance.x, caps.instance.y)
}

#[test]
fn a_new_engine_shows_the_force_view() {
    let engine = LayoutEngine::new("canvas".to_string());
    assert_eq!(engine.current_layout_type(), LayoutType::ForceDirected);
    assert!(engine.is_physics_enabled());
    assert_eq!(engine.canvas_id(), "canvas");
    assert_eq!(engine.temperature(), 0);
    assert!(engine.connections().is_empty());
    assert!(engine.simulation_target().is_none());
}

#[test]
fn physics_toggles_in_the_shown_view_only() {
    let mut engine = LayoutEngine::new("c".to_string());
    let mut g = three_nodes();
    assert!(!engine.toggle_physics());
    assert!(!engine.is_physics_enabled());
    engine.switch_to_view(1, &mut g);
    assert!(engine.is_physics_enabled());
    engine.switch_to_view(0, &mut g);
    assert!(!engine.is_physics_enabled());
    assert!(engine.toggle_physics());
}

#[test]
fn switching_back_restores_positions() {
    let mut engine = LayoutEngine::new("c".to_string());
    let mut g = three_nodes();
    assert_eq!(engine.switch_to_view(1, &mut g), Some((0, 0, ZOOM_ONE_BITS)));
    assert_eq!(engine.current_layout_type(), LayoutType::Hierarchical);
    g.set_node_position("p", 99, 98);
    g.set_node_position("r", 7, 6);
    assert_eq!(engine.switch_to_view(0, &mut g), Some((0, 0, ZOOM_ONE_BITS)));
    assert_eq!(position(&g, "p"), (10, 20));
    assert_eq!(position(&g, "q"), (30, 40));
    assert_eq!(position(&g, "r"), (50, 60));
    engine.switch_to_view(1, &mut g);
    assert_eq!(position(&g, "p"), (99, 98));
    assert_eq!(position(&g, "r"), (7, 6));
}

#[test]
fn views_keep_their_pan_and_zoom() {
    let mut engine = LayoutEngine::new("c".to_string());
    let mut g = three_nodes();
    engine.save_view_transform(5, 6, 7);
    engine.switch_to_view(2, &mut g);
    assert_eq!(engine.switch_to_view(0, &mut g), Some((5, 6, 7)));
    assert_eq!(engine.switch_to_view(3, &mut g), None);
    assert_eq!(engine.current_layout_type(), LayoutType::ForceDirected);
}

#[test]
fn switching_layout_keeps_positions_and_sets_physics() {
    let mut engine = LayoutEngine::new("c".to_string());
    let mut g = three_nodes();
    assert!(!engine.switch_layout(LayoutType::Hierarchical, &mut g));
    assert_eq!(engine.current_layout_type(), LayoutType::Hierarchical);
    assert!(!engine.is_physics_enabled());
    assert_eq!(position(&g, "q"), (30, 40));
    assert!(engine.switch_layout(LayoutType::ForceDirected, &mut g));
    assert!(engine.is_physics_enabled());
    assert_eq!(engine.current_layout_type(), LayoutType::ForceDirected);
    let generated = LayoutSnapshot { positions: vec![("q".to_string(), NodePosition { x: 7, y: 8 })] };
    engine.show_layout(&mut g, &generated);
    assert_eq!(position(&g, "q"), (7, 8));
    assert_eq!(position(&g, "p"), (10, 20));
}

#[test]
fn resetting_shows_the_new_layout() {
    let mut engine = LayoutEngine::new("c".to_string());
    let mut g = three_nodes();
    engine.save_view_transform(5, 6, 7);
    let fresh = LayoutSnapshot {
        positions: vec![
            ("q".to_string(), NodePosition { x: 1, y: 2 }),
            ("gone".to_string(), NodePosition { x: 3, y: 4 }),
        ],
    };
    engine.reset_current_layout(&mut g, fresh);
    assert_eq!(position(&g, "q"), (1, 2));
    assert_eq!(position(&g, "p"), (10, 20));
    assert!(g.get_node_capabilities("gone").is_none());
    engine.switch_to_view(1, &mut g);
    assert_eq!(engine.switch_to_view(0, &mut g), Some((0, 0, ZOOM_ONE_BITS)));
}

#[test]
fn the_free_layout_is_the_current_positions() {
    let engine = LayoutEngine::new("c".to_string());
    let g = three_nodes();
    let mut got: Vec<(String, u64, u64)> =
        engine.generate_free_layout(&g).positions.into_iter().map(|(id, p)| (id, p.x, p.y)).collect();
    got.sort();
    assert_eq!(
        got,
        vec![("p".to_string(), 10, 20), ("q".to_string(), 30, 40), ("r".to_string(), 50, 60)]
    );
}

#[test]
fn connections_are_joined_both_ways() {
    let g = three_nodes();
    let lists = build_connection_graph(&g);
    assert_eq!(lists.len(), 3);
    let of = |id: &str| lists.iter().find(|(n, _)| n == id).unwrap().1.clone();
    assert_eq!(of("p"), vec!["q".to_string(), "r".to_string()]);
    let q = of("q");
    assert_eq!(q[0], "r");
    assert_eq!(q[1..].to_vec(), vec!["p".to_string()]);
    let mut r = of("r");
    r.sort();
    assert_eq!(r, vec!["p".to_string(), "q".to_string()]);
}

#[test]
fn the_simulation_runs_while_physics_is_on() {
    let mut engine = LayoutEngine::new("c".to_string());
    let g = three_nodes();
    engine.start_force_simulation(&g, "p", 42);
    assert_eq!(engine.simulation_target().map(|s| s.as_str()), Some("p"));
    assert_eq!(engine.temperature(), 42);
    assert_eq!(engine.connections().len(), 3);
    engine.finish_simulation_step(41);
    assert_eq!(engine.temperature(), 41);
    engine.stop_force_simulation();
    assert!(engine.simulation_target().is_none());
    engine.toggle_physics();
    engine.start_force_simulation(&g, "q", 5);
    assert!(engine.simulation_target().is_none());
    assert_eq!(engine.temperature(), 41);
}

#[test]
fn the_simulation_ends_after_its_last_step() {
    let mut engine = LayoutEngine::new("c".to_string());
    let g = three_nodes();
    engine.start_force_simulation(&g, "p", 1);
    for _ in 0..MAX_SIMULATION_STEPS {
        engine.finish_simulation_step(1);
    }
    assert!(engine.simulation_target().is_some());
    engine.finish_simulation_step(1);
    assert!(engine.simulation_target().is_none());
}

#[test]
fn a_view_state_starts_unpanned() {
    let v = ViewState::new(LayoutType::Free, LayoutSnapshot { positions: vec![] });
    assert_eq!((v.pan_x, v.pan_y, v.zoom), (0, 0, ZOOM_ONE_BITS));
    assert!(v.physics_enabled);
    assert_eq!(f64::from_bits(ZOOM_ONE_BITS), 1.0);
}

#[test]
fn switching_to_a_view_and_back_changes_nothing() {
    let mut engine = LayoutEngine::new("c".to_string());
    let mut g = three_nodes();
    let before = format!("{:?}", g);
    engine.switch_to_view(0, &mut g);
    assert_eq!(format!("{:?}", g), before);
    engine.switch_to_view(0, &mut g);
    assert_eq!(format!("{:?}", g), before);
    engine.switch_to_view(2, &mut g);
    engine.switch_to_view(0, &mut g);
    assert_eq!(format!("{:?}", g), before);
    assert_eq!(engine.switch_to_view(5, &mut g), None);
    assert_eq!(format!("{:?}", g), before);
}
