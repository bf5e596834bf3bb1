use graph_canvas::graph::Graph;
use graph_canvas::hierarchy::{
    assign_levels, break_cycles, dependency_lists, hierarchical_levels, nodes_by_level,
    reverse_lists,
};
use graph_canvas::model::{
    Connection, NodeTemplate, SlotPosition, SlotTemplate, SlotType, DEFAULT_NODE_HEIGHT_BITS,
    DEFAULT_NODE_WIDTH_BITS,
};

fn lists(v: &[&[usize]]) -> Vec<Vec<usize>> {
    v.iter().map(|l| l.to_vec()).collect()
}

fn linked_template() -> NodeTemplate {
    NodeTemplate {
        template_id: "n".to_string(),
        name: "N".to_string(),
        slot_templates: vec![SlotTemplate {
            id: "out".to_string(),
            name: "Out".to_string(),
            position: SlotPosition::Right,
            slot_type: SlotType::Outgoing,
            allowed_connections: vec!["n".to_string()],
            min_connections: 0,
            max_connections: None,
            can_modify_connections: true,
        }],
        field_templates: vec![],
        max_instances: None,
        min_instances: None,
        can_delete: true,
        can_create: true,
        can_modify_slots: true,
        can_modify_fields: true,
        default_width: DEFAULT_NODE_WIDTH_BITS,
        default_height: DEFAULT_NODE_HEIGHT_BITS,
    }
}

fn link(host: &str, target: &str) -> Connection {
    Connection {
        can_delete: true,
        host_node_id: host.to_string(),
        host_slot_template_id: "out".to_string(),
        target_node_id: target.to_string(),
        target_slot_template_id: "incoming".to_string(),
    }
}

#[test]
fn a_three_cycle_loses_its_closing_edge() {
    let mut deps = lists(&[&[1], &[2], &[0]]);
    let removed = break_cycles(&mut deps);
    assert_eq!(removed, vec![(2, 0)]);
    assert_eq!(deps, lists(&[&[1], &[2], &[]]));
}

#[test]
fn a_cycle_free_graph_keeps_every_edge() {
    let mut deps = lists(&[&[1, 2], &[3], &[3], &[]]);
    let removed = break_cycles(&mut deps);
    assert!(removed.is_empty());
    assert_eq!(deps, lists(&[&[1, 2], &[3], &[3], &[]]));
}

#[test]
fn a_self_loop_is_removed() {
    let mut deps = lists(&[&[0, 1], &[]]);
    let removed = break_cycles(&mut deps);
    assert_eq!(removed, vec![(0, 0)]);
    assert_eq!(deps, lists(&[&[1], &[]]));
}

#[test]
fn reversed_lists_name_the_sources() {
    let rev = reverse_lists(&lists(&[&[1, 2], &[2], &[]]));
    assert_eq!(rev, lists(&[&[], &[0], &[0, 1]]));
    let twice = reverse_lists(&lists(&[&[1, 1], &[]]));
    assert_eq!(twice, lists(&[&[], &[0, 0]]));
}

#[test]
fn levels_follow_the_longest_path() {
    let deps = lists(&[&[1, 2], &[3], &[3], &[]]);
    let rev = reverse_lists(&deps);
    assert_eq!(assign_levels(&deps, &rev), vec![0, 1, 1, 2]);
}

#[test]
fn unreached_nodes_stay_at_level_zero() {
    let deps = lists(&[&[], &[2], &[]]);
    let rev = reverse_lists(&deps);
    assert_eq!(assign_levels(&deps, &rev), vec![0, 0, 1]);
}

#[test]
fn a_cycle_is_layered_after_breaking() {
    let (cut, levels) = hierarchical_levels(&lists(&[&[1], &[2], &[0]]));
    assert_eq!(cut, lists(&[&[1], &[2], &[]]));
    assert_eq!(levels, vec![0, 1, 2]);
}

#[test]
fn nodes_are_grouped_by_increasing_level() {
    let groups = nodes_by_level(&vec![2, 0, 2, 1]);
    assert_eq!(groups, vec![(0, vec![1]), (1, vec![3]), (2, vec![0, 2])]);
    assert!(nodes_by_level(&vec![]).is_empty());
}

#[test]
fn dependency_lists_follow_connections() {
    let mut g = Graph::new();
    g.register_template(linked_template());
    for id in ["p", "q", "r"] {
        g.create_instance("n", 0, 0, Some(id.to_string())).unwrap();
    }
    g.connect_slots(link("p", "q")).unwrap();
    g.connect_slots(link("p", "r")).unwrap();
    g.connect_slots(link("q", "r")).unwrap();
    let (ids, deps) = dependency_lists(&g);
    assert_eq!(ids.len(), 3);
    let at = |name: &str| ids.iter().position(|x| x == name).unwrap();
    let mut from_p: Vec<usize> = deps[at("p")].clone();
    from_p.sort();
    let mut expected = vec![at("q"), at("r")];
    expected.sort();
    assert_eq!(from_p, expected);
    assert_eq!(deps[at("q")], vec![at("r")]);
    assert!(deps[at("r")].is_empty());
}

#[test]
fn nodes_move_to_the_given_position() {
    let mut g = Graph::default();
    g.register_template(linked_template());
    g.create_instance("n", 1, 2, Some("p".to_string())).unwrap();
    g.set_node_position("p", 30, 40);
    let caps = g.get_node_capabilities("p").unwrap();
    assert_eq!((caps.instance.x, caps.instance.y), (30, 40));
    g.set_node_position("missing", 5, 5);
    assert!(g.get_node_capabilities("missing").is_none());
}

#[test]
fn every_edge_leads_one_level_down_without_cycles() {
    // 0 -> 1, 0 -> 3, 0 -> 4, 1 -> 2, 2 -> 3, 3 -> 5, 4 -> 2
    let deps = lists(&[&[1, 3, 4], &[2], &[3], &[5], &[2], &[]]);
    let (cut, levels) = hierarchical_levels(&deps);
    assert_eq!(cut, deps);
    for (u, row) in deps.iter().enumerate() {
        for &t in row {
            assert!(levels[t] >= levels[u] + 1, "{:?}", levels);
        }
    }
    assert_eq!(levels, vec![0, 1, 2, 3, 1, 4]);
}

#[test]
fn a_broken_cycle_can_leave_an_edge_level() {
    // 0 -> 1, 1 -> 2, 2 -> 1: the node behind the cut edge is never queued.
    let (cut, levels) = hierarchical_levels(&lists(&[&[1], &[2], &[1]]));
    assert_eq!(cut, lists(&[&[1], &[2], &[]]));
    assert_eq!(levels, vec![0, 1, 0]);
}

#[test]
fn each_removed_list_entry_is_returned_once() {
    let mut deps = lists(&[&[1], &[0, 0]]);
    let removed = break_cycles(&mut deps);
    assert_eq!(removed, vec![(1, 0), (1, 0)]);
    assert_eq!(deps, lists(&[&[1], &[]]));
    let mut once = lists(&[&[1, 1], &[0]]);
    assert_eq!(break_cycles(&mut once), vec![(1, 0)]);
    assert_eq!(once, lists(&[&[1, 1], &[]]));
}
