//! Partial descriptions of a configuration, as a script supplies them, and
//! their completion with defaults.
use vstd::prelude::*;
use vstd::string::*;
use crate::config::{
    GraphCanvasConfig, InitialConnection, InitialFieldValue, InitialNode, TemplateGroup,
    TemplateIdentifier, CONTEXT_MENU_HEIGHT_BITS, CONTEXT_MENU_WIDTH_BITS,
    CONTROL_POINT_DISTANCE_BITS, GRID_SIZE_BITS, SLOT_RADIUS_BITS,
};
use crate::ids::hyphenated_text;
use crate::model::{
    FieldTemplate, NodeTemplate, SlotPosition, SlotTemplate, SlotType, DEFAULT_NODE_HEIGHT_BITS,
    DEFAULT_NODE_WIDTH_BITS,
};
use crate::text::str_eq;

verus! {

/// A template group as a script describes it.
#[derive(Debug)]
pub struct JsTemplateGroup {
    pub id: String,
    pub name: String,
    pub description: Option<String>,
    pub templates: Vec<String>,
}

impl From<JsTemplateGroup> for TemplateGroup {
    fn from(js_group: JsTemplateGroup) -> (r: Self)
        ensures
            r.id == js_group.id,
            r.name == js_group.name,
            r.description == js_group.description,
            r.templates == js_group.templates,
    {
        TemplateGroup {
            id: js_group.id,
            name: js_group.name,
            description: js_group.description,
            templates: js_group.templates,
        }
    }
}

impl vstd::std_specs::convert::FromSpecImpl<JsTemplateGroup> for TemplateGroup {
    open spec fn obeys_from_spec() -> bool {
        true
    }

    open spec fn from_spec(v: JsTemplateGroup) -> Self {
        TemplateGroup { id: v.id, name: v.name, description: v.description, templates: v.templates }
    }
}

/// The position a script names: "Top", "Bottom", "Left" or "Right", in
/// either case of the first letter; anything else is `Top`.
pub open spec fn position_named(s: Seq<char>) -> SlotPosition {
    if s == "Top"@ || s == "top"@ {
        SlotPosition::Top
    } else if s == "Bottom"@ || s == "bottom"@ {
        SlotPosition::Bottom
    } else if s == "Left"@ || s == "left"@ {
        SlotPosition::Left
    } else if s == "Right"@ || s == "right"@ {
        SlotPosition::Right
    } else {
        SlotPosition::Top
    }
}

impl From<String> for SlotPosition {
    fn from(value: String) -> (r: Self)
        ensures
            r == position_named(value@),
    {
        let v = value.as_str();
        if str_eq(v, "Top") || str_eq(v, "top") {
            SlotPosition::Top
        } else if str_eq(v, "Bottom") || str_eq(v, "bottom") {
            SlotPosition::Bottom
        } else if str_eq(v, "Left") || str_eq(v, "left") {
            SlotPosition::Left
        } else if str_eq(v, "Right") || str_eq(v, "right") {
            SlotPosition::Right
        } else {
            SlotPosition::Top
        }
    }
}

impl vstd::std_specs::convert::FromSpecImpl<String> for SlotPosition {
    open spec fn obeys_from_spec() -> bool {
        true
    }

    open spec fn from_spec(v: String) -> Self {
        position_named(v@)
    }
}

/// The slot type a script names: "Output" is outgoing, anything else
/// incoming.
pub open spec fn slot_type_named(s: Seq<char>) -> SlotType {
    if s == "Input"@ {
        SlotType::Incoming
    } else if s == "Output"@ {
        SlotType::Outgoing
    } else {
        SlotType::Incoming
    }
}

impl From<String> for SlotType {
    fn from(value: String) -> (r: Self)
        ensures
            r == slot_type_named(value@),
    {
        let v = value.as_str();
        if str_eq(v, "Input") {
            SlotType::Incoming
        } else if str_eq(v, "Output") {
            SlotType::Outgoing
        } else {
            SlotType::Incoming
        }
    }
}

impl vstd::std_specs::convert::FromSpecImpl<String> for SlotType {
    open spec fn obeys_from_spec() -> bool {
        true
    }

    open spec fn from_spec(v: String) -> Self {
        slot_type_named(v@)
    }
}

/// A slot template as a script describes it: the name, and what differs from
/// the defaults.
#[derive(Debug)]
pub struct JsPartialSlotTemplate {
    pub name: String,
    pub slot_type: Option<SlotType>,
    pub position: Option<SlotPosition>,
    pub allowed_connections: Option<Vec<String>>,
    pub min_connections: Option<usize>,
    pub max_connections: Option<usize>,
    pub can_modify_connections: Option<bool>,
}

/// `r` completes `p` with the defaults of a new slot template: a generated
/// id, an outgoing slot on the right, no allowed targets, no bounds, and
/// connections that may change.
pub open spec fn completes_slot_template(p: JsPartialSlotTemplate, r: SlotTemplate) -> bool {
    &&& exists|v: u128| r.id@ == hyphenated_text(v)
    &&& r.name@ == p.name@
    &&& r.position == (match p.position {
        Some(x) => x,
        None => SlotPosition::Right,
    })
    &&& r.slot_type == (match p.slot_type {
        Some(x) => x,
        None => SlotType::Outgoing,
    })
    &&& r.allowed_connections@ == (match p.allowed_connections {
        Some(a) => a@,
        None => Seq::empty(),
    })
    &&& r.min_connections == (match p.min_connections {
        Some(x) => x,
        None => 0,
    })
    &&& r.max_connections == p.max_connections
    &&& r.can_modify_connections == (match p.can_modify_connections {
        Some(x) => x,
        None => true,
    })
}

impl From<JsPartialSlotTemplate> for SlotTemplate {
    fn from(partial: JsPartialSlotTemplate) -> (r: Self)
        ensures
            completes_slot_template(partial, r),
    {
        let ghost p = partial;
        let default = SlotTemplate::new(partial.name.as_str());
        let max_connections = if partial.max_connections.is_some() {
            partial.max_connections
        } else {
            default.max_connections
        };
        let allowed_connections = match partial.allowed_connections {
            Some(a) => a,
            None => {
                assert(default.allowed_connections@ =~= Seq::<String>::empty());
                default.allowed_connections
            },
        };
        let id = crate::ids::generate_id();
        SlotTemplate {
            id,
            name: partial.name,
            position: match partial.position {
                Some(x) => x,
                None => default.position,
            },
            slot_type: match partial.slot_type {
                Some(x) => x,
                None => default.slot_type,
            },
            allowed_connections,
            min_connections: match partial.min_connections {
                Some(x) => x,
                None => default.min_connections,
            },
            max_connections,
            can_modify_connections: match partial.can_modify_connections {
                Some(x) => x,
                None => default.can_modify_connections,
            },
        }
    }
}

impl vstd::std_specs::convert::FromSpecImpl<JsPartialSlotTemplate> for SlotTemplate {
    open spec fn obeys_from_spec() -> bool {
        false
    }

    open spec fn from_spec(v: JsPartialSlotTemplate) -> Self {
        arbitrary()
    }
}

/// A node template as a script describes it: the name, and what differs
/// from the defaults. Sizes are bit patterns.
#[derive(Debug)]
pub struct JsPartialNodeTemplate {
    pub name: String,
    pub slot_templates: Option<Vec<JsPartialSlotTemplate>>,
    pub min_instances: Option<Option<usize>>,
    pub max_instances: Option<Option<usize>>,
    pub can_delete: Option<bool>,
    pub can_create: Option<bool>,
    pub default_width: Option<u64>,
    pub default_height: Option<u64>,
    pub can_modify_slots: Option<bool>,
}

/// The slot templates of `r` complete those that `p` lists, one each.
pub open spec fn completes_slot_templates(p: Seq<JsPartialSlotTemplate>, r: Seq<SlotTemplate>) -> bool {
    &&& r.len() == p.len()
    &&& forall|i: int| 0 <= i < p.len() ==> completes_slot_template(#[trigger] p[i], r[i])
}

/// `r` completes `p` with the defaults of a new node template: a generated
/// id, no slots and no fields, no bounds on instances, every permission, and
/// the default size.
pub open spec fn completes_node_template(p: JsPartialNodeTemplate, r: NodeTemplate) -> bool {
    &&& exists|v: u128| r.template_id@ == hyphenated_text(v)
    &&& r.name@ == p.name@
    &&& match p.slot_templates {
        Some(s) => completes_slot_templates(s@, r.slot_templates@),
        None => r.slot_templates@.len() == 0,
    }
    &&& r.field_templates@.len() == 0
    &&& r.min_instances == (match p.min_instances {
        Some(x) => x,
        None => None,
    })
    &&& r.max_instances == (match p.max_instances {
        Some(x) => x,
        None => None,
    })
    &&& r.can_delete == (match p.can_delete {
        Some(x) => x,
        None => true,
    })
    &&& r.can_create == (match p.can_create {
        Some(x) => x,
        None => true,
    })
    &&& r.default_width == (match p.default_width {
        Some(x) => x,
        None => DEFAULT_NODE_WIDTH_BITS,
    })
    &&& r.default_height == (match p.default_height {
        Some(x) => x,
        None => DEFAULT_NODE_HEIGHT_BITS,
    })
    &&& r.can_modify_slots == (match p.can_modify_slots {
        Some(x) => x,
        None => true,
    })
    &&& r.can_modify_fields
}

/// Completes each of `partials`, in order.
fn complete_slot_templates(partials: Vec<JsPartialSlotTemplate>) -> (r: Vec<SlotTemplate>)
    ensures
        completes_slot_templates(partials@, r@),
{
    let ghost ps = partials@;
    let mut rest = partials;
    let mut reversed: Vec<SlotTemplate> = Vec::new();
    while rest.len() > 0
        invariant
            reversed@.len() + rest@.len() == ps.len(),
            rest@ == ps.take(rest@.len() as int),
            forall|i: int|
                0 <= i < reversed@.len() ==> completes_slot_template(
                    ps[ps.len() - 1 - i],
                    #[trigger] reversed@[i],
                ),
        decreases rest@.len(),
    {
        let ghost before = rest@;
        let p = rest.pop().unwrap();
        proof {
            assert(p == ps[ps.len() - 1 - reversed@.len()]);
            assert(rest@ =~= ps.take(rest@.len() as int));
        }
        let t = SlotTemplate::from(p);
        reversed.push(t);
    }
    let mut r: Vec<SlotTemplate> = Vec::new();
    while reversed.len() > 0
        invariant
            reversed@.len() + r@.len() == ps.len(),
            forall|i: int|
                0 <= i < reversed@.len() ==> completes_slot_template(
                    ps[ps.len() - 1 - i],
                    #[trigger] reversed@[i],
                ),
            forall|i: int| 0 <= i < r@.len() ==> completes_slot_template(ps[i], #[trigger] r@[i]),
        decreases reversed@.len(),
    {
        let ghost k = reversed@.len() - 1;
        let t = reversed.pop().unwrap();
        proof {
            assert(completes_slot_template(ps[ps.len() - 1 - k], t));
        }
        r.push(t);
    }
    r
}

impl From<JsPartialNodeTemplate> for NodeTemplate {
    fn from(partial: JsPartialNodeTemplate) -> (r: Self)
        ensures
            completes_node_template(partial, r),
    {
        let default = NodeTemplate::new(partial.name.as_str());
        let slot_templates = match partial.slot_templates {
            Some(partial_slot_templates) => complete_slot_templates(partial_slot_templates),
            None => default.slot_templates,
        };
        NodeTemplate {
            template_id: default.template_id,
            name: partial.name,
            slot_templates,
            field_templates: default.field_templates,
            min_instances: match partial.min_instances {
                Some(x) => x,
                None => default.min_instances,
            },
            max_instances: match partial.max_instances {
                Some(x) => x,
                None => default.max_instances,
            },
            can_delete: match partial.can_delete {
                Some(x) => x,
                None => default.can_delete,
            },
            can_create: match partial.can_create {
                Some(x) => x,
                None => default.can_create,
            },
            default_width: match partial.default_width {
                Some(x) => x,
                None => default.default_width,
            },
            default_height: match partial.default_height {
                Some(x) => x,
                None => default.default_height,
            },
            can_modify_slots: match partial.can_modify_slots {
                Some(x) => x,
                None => default.can_modify_slots,
            },
            can_modify_fields: default.can_modify_fields,
        }
    }
}

impl vstd::std_specs::convert::FromSpecImpl<JsPartialNodeTemplate> for NodeTemplate {
    open spec fn obeys_from_spec() -> bool {
        false
    }

    open spec fn from_spec(v: JsPartialNodeTemplate) -> Self {
        arbitrary()
    }
}

/// A connection of an initial node as a script describes it.
#[derive(Debug)]
pub struct JsInitialConnection {
    pub host_slot_name: String,
    pub target_instance_id: String,
    pub can_delete: bool,
}

impl From<JsInitialConnection> for InitialConnection {
    fn from(js_conn: JsInitialConnection) -> (r: Self)
        ensures
            r.can_delete == js_conn.can_delete,
            r.host_slot_name == js_conn.host_slot_name,
            r.target_instance_id == js_conn.target_instance_id,
    {
        InitialConnection {
            can_delete: js_conn.can_delete,
            host_slot_name: js_conn.host_slot_name,
            target_instance_id: js_conn.target_instance_id,
        }
    }
}

impl vstd::std_specs::convert::FromSpecImpl<JsInitialConnection> for InitialConnection {
    open spec fn obeys_from_spec() -> bool {
        true
    }

    open spec fn from_spec(v: JsInitialConnection) -> Self {
        InitialConnection {
            can_delete: v.can_delete,
            host_slot_name: v.host_slot_name,
            target_instance_id: v.target_instance_id,
        }
    }
}

/// An initial node as a script describes it: the template's name and the
/// position (bit patterns), and what differs from the defaults.
#[derive(Debug)]
pub struct JsPartialInitialNode {
    pub template_name: String,
    pub x: u64,
    pub y: u64,
    pub can_delete: Option<bool>,
    pub can_move: Option<bool>,
    pub initial_connections: Option<Vec<JsInitialConnection>>,
    pub id: Option<String>,
}

/// The initial connections that `p` lists, converted one each.
pub open spec fn converts_connections(p: Seq<JsInitialConnection>, r: Seq<InitialConnection>) -> bool {
    &&& r.len() == p.len()
    &&& forall|i: int|
        0 <= i < p.len() ==> {
            &&& (#[trigger] r[i]).can_delete == p[i].can_delete
            &&& r[i].host_slot_name == p[i].host_slot_name
            &&& r[i].target_instance_id == p[i].target_instance_id
        }
}

/// `r` completes `p`: the template is referred to by name, the node may be
/// deleted and moved unless `p` says otherwise, and no field values are set.
pub open spec fn completes_initial_node(p: JsPartialInitialNode, r: InitialNode) -> bool {
    &&& r.template_identifier == TemplateIdentifier::Name(p.template_name)
    &&& r.x == p.x
    &&& r.y == p.y
    &&& r.can_delete == (match p.can_delete {
        Some(x) => x,
        None => true,
    })
    &&& r.can_move == (match p.can_move {
        Some(x) => x,
        None => true,
    })
    &&& match p.initial_connections {
        Some(cs) => converts_connections(cs@, r.initial_connections@),
        None => r.initial_connections@.len() == 0,
    }
    &&& r.id == p.id
    &&& r.initial_field_values@.len() == 0
}

/// Converts each of `conns`, in order.
fn convert_connections(conns: Vec<JsInitialConnection>) -> (r: Vec<InitialConnection>)
    ensures
        converts_connections(conns@, r@),
{
    let ghost ps = conns@;
    let mut rest = conns;
    let mut reversed: Vec<InitialConnection> = Vec::new();
    while rest.len() > 0
        invariant
            reversed@.len() + rest@.len() == ps.len(),
            rest@ == ps.take(rest@.len() as int),
            forall|i: int|
                0 <= i < reversed@.len() ==> {
                    let q = ps[ps.len() - 1 - i];
                    &&& (#[trigger] reversed@[i]).can_delete == q.can_delete
                    &&& reversed@[i].host_slot_name == q.host_slot_name
                    &&& reversed@[i].target_instance_id == q.target_instance_id
                },
        decreases rest@.len(),
    {
        let p = rest.pop().unwrap();
        proof {
            assert(p == ps[ps.len() - 1 - reversed@.len()]);
            assert(rest@ =~= ps.take(rest@.len() as int));
        }
        reversed.push(InitialConnection::from(p));
    }
    let mut r: Vec<InitialConnection> = Vec::new();
    while reversed.len() > 0
        invariant
            reversed@.len() + r@.len() == ps.len(),
            forall|i: int|
                0 <= i < reversed@.len() ==> {
                    let q = ps[ps.len() - 1 - i];
                    &&& (#[trigger] reversed@[i]).can_delete == q.can_delete
                    &&& reversed@[i].host_slot_name == q.host_slot_name
                    &&& reversed@[i].target_instance_id == q.target_instance_id
                },
            forall|i: int|
                0 <= i < r@.len() ==> {
                    &&& (#[trigger] r@[i]).can_delete == ps[i].can_delete
                    &&& r@[i].host_slot_name == ps[i].host_slot_name
                    &&& r@[i].target_instance_id == ps[i].target_instance_id
                },
        decreases reversed@.len(),
    {
        let ghost k = reversed@.len() - 1;
        let t = reversed.pop().unwrap();
        proof {
            assert(t == reversed@.push(t)[k]);
        }
        r.push(t);
    }
    r
}

impl From<JsPartialInitialNode> for InitialNode {
    fn from(partial: JsPartialInitialNode) -> (r: Self)
        ensures
            completes_initial_node(partial, r),
    {
        let initial_connections = match partial.initial_connections {
            Some(conns) => convert_connections(conns),
            None => Vec::new(),
        };
        let initial_field_values: Vec<InitialFieldValue> = Vec::new();
        InitialNode {
            template_identifier: TemplateIdentifier::Name(partial.template_name),
            x: partial.x,
            y: partial.y,
            can_delete: match partial.can_delete {
                Some(x) => x,
                None => true,
            },
            can_move: match partial.can_move {
                Some(x) => x,
                None => true,
            },
            initial_connections,
            id: partial.id,
            initial_field_values,
        }
    }
}

impl vstd::std_specs::convert::FromSpecImpl<JsPartialInitialNode> for InitialNode {
    open spec fn obeys_from_spec() -> bool {
        false
    }

    open spec fn from_spec(v: JsPartialInitialNode) -> Self {
        arbitrary()
    }
}

/// A configuration as a script describes it: only what differs from the
/// defaults. Sizes are bit patterns.
#[derive(Debug)]
pub struct JsPartialConfig {
    pub context_menu_size: Option<(u64, u64)>,
    pub default_node_width: Option<u64>,
    pub default_node_height: Option<u64>,
    pub connection_control_point_distance: Option<u64>,
    pub slot_radius: Option<u64>,
    pub node_templates: Option<Vec<JsPartialNodeTemplate>>,
    pub template_groups: Option<Vec<JsTemplateGroup>>,
    pub initial_nodes: Option<Vec<JsPartialInitialNode>>,
    pub show_default_toolbar: Option<bool>,
    pub snap_to_grid: Option<bool>,
    pub grid_size: Option<u64>,
    pub is_mutable: Option<bool>,
    pub is_movable: Option<bool>,
}

pub open spec fn or_default<T>(o: Option<T>, d: T) -> T {
    match o {
        Some(x) => x,
        None => d,
    }
}

/// The groups of `r` are those `p` lists, converted one each.
pub open spec fn converts_groups(p: Seq<JsTemplateGroup>, r: Seq<TemplateGroup>) -> bool {
    &&& r.len() == p.len()
    &&& forall|i: int|
        0 <= i < p.len() ==> {
            &&& (#[trigger] r[i]).id == p[i].id
            &&& r[i].name == p[i].name
            &&& r[i].description == p[i].description
            &&& r[i].templates == p[i].templates
        }
}

/// The templates of `r` complete those `p` lists, one each.
pub open spec fn completes_node_templates(p: Seq<JsPartialNodeTemplate>, r: Seq<NodeTemplate>) -> bool {
    &&& r.len() == p.len()
    &&& forall|i: int| 0 <= i < p.len() ==> completes_node_template(#[trigger] p[i], r[i])
}

/// The initial nodes of `r` complete those `p` lists, one each.
pub open spec fn completes_initial_nodes(p: Seq<JsPartialInitialNode>, r: Seq<InitialNode>) -> bool {
    &&& r.len() == p.len()
    &&& forall|i: int| 0 <= i < p.len() ==> completes_initial_node(#[trigger] p[i], r[i])
}

/// `r` completes `p` with the default settings.
pub open spec fn completes_config(p: JsPartialConfig, r: GraphCanvasConfig) -> bool {
    &&& r.context_menu_size == or_default(p.context_menu_size, (CONTEXT_MENU_WIDTH_BITS, CONTEXT_MENU_HEIGHT_BITS))
    &&& r.default_node_width == or_default(p.default_node_width, DEFAULT_NODE_WIDTH_BITS)
    &&& r.default_node_height == or_default(p.default_node_height, DEFAULT_NODE_HEIGHT_BITS)
    &&& r.connection_control_point_distance == or_default(p.connection_control_point_distance, CONTROL_POINT_DISTANCE_BITS)
    &&& r.slot_radius == or_default(p.slot_radius, SLOT_RADIUS_BITS)
    &&& match p.node_templates {
        Some(v) => completes_node_templates(v@, r.node_templates@),
        None => r.node_templates@.len() == 0,
    }
    &&& match p.template_groups {
        Some(v) => converts_groups(v@, r.template_groups@),
        None => r.template_groups@.len() == 0,
    }
    &&& match p.initial_nodes {
        Some(v) => completes_initial_nodes(v@, r.initial_nodes@),
        None => r.initial_nodes@.len() == 0,
    }
    &&& r.show_default_toolbar == or_default(p.show_default_toolbar, true)
    &&& r.snap_to_grid == or_default(p.snap_to_grid, false)
    &&& r.grid_size == or_default(p.grid_size, GRID_SIZE_BITS)
    &&& r.is_mutable == or_default(p.is_mutable, true)
    &&& r.is_movable == or_default(p.is_movable, true)
}

/// Completes each of `partials`, in order.
fn complete_node_templates(partials: Vec<JsPartialNodeTemplate>) -> (r: Vec<NodeTemplate>)
    ensures
        completes_node_templates(partials@, r@),
{
    let ghost ps = partials@;
    let mut rest = partials;
    let mut reversed: Vec<NodeTemplate> = Vec::new();
    while rest.len() > 0
        invariant
            reversed@.len() + rest@.len() == ps.len(),
            rest@ == ps.take(rest@.len() as int),
            forall|i: int| 0 <= i < reversed@.len() ==> completes_node_template(ps[ps.len() - 1 - i], #[trigger] reversed@[i]),
        decreases rest@.len(),
    {
        let p = rest.pop().unwrap();
        proof {
            assert(p == ps[ps.len() - 1 - reversed@.len()]);
            assert(rest@ =~= ps.take(rest@.len() as int));
        }
        reversed.push(NodeTemplate::from(p));
    }
    let mut r: Vec<NodeTemplate> = Vec::new();
    while reversed.len() > 0
        invariant
            reversed@.len() + r@.len() == ps.len(),
            forall|i: int| 0 <= i < reversed@.len() ==> completes_node_template(ps[ps.len() - 1 - i], #[trigger] reversed@[i]),
            forall|i: int| 0 <= i < r@.len() ==> completes_node_template(ps[i], #[trigger] r@[i]),
        decreases reversed@.len(),
    {
        let ghost k = reversed@.len() - 1;
        let t = reversed.pop().unwrap();
        proof {
            assert(t == reversed@.push(t)[k]);
        }
        r.push(t);
    }
    r
}

/// Converts each of `groups`, in order.
fn convert_groups(groups: Vec<JsTemplateGroup>) -> (r: Vec<TemplateGroup>)
    ensures
        converts_groups(groups@, r@),
{
    let ghost ps = groups@;
    let mut rest = groups;
    let mut reversed: Vec<TemplateGroup> = Vec::new();
    while rest.len() > 0
        invariant
            reversed@.len() + rest@.len() == ps.len(),
            rest@ == ps.take(rest@.len() as int),
            forall|i: int|
                0 <= i < reversed@.len() ==> {
                    let q = ps[ps.len() - 1 - i];
                    &&& (#[trigger] reversed@[i]).id == q.id
                    &&& reversed@[i].name == q.name
                    &&& reversed@[i].description == q.description
                    &&& reversed@[i].templates == q.templates
                },
        decreases rest@.len(),
    {
        let p = rest.pop().unwrap();
        proof {
            assert(p == ps[ps.len() - 1 - reversed@.len()]);
            assert(rest@ =~= ps.take(rest@.len() as int));
        }
        reversed.push(TemplateGroup::from(p));
    }
    let mut r: Vec<TemplateGroup> = Vec::new();
    while reversed.len() > 0
        invariant
            reversed@.len() + r@.len() == ps.len(),
            forall|i: int|
                0 <= i < reversed@.len() ==> {
                    let q = ps[ps.len() - 1 - i];
                    &&& (#[trigger] reversed@[i]).id == q.id
                    &&& reversed@[i].name == q.name
                    &&& reversed@[i].description == q.description
                    &&& reversed@[i].templates == q.templates
                },
            forall|i: int|
                0 <= i < r@.len() ==> {
                    &&& (#[trigger] r@[i]).id == ps[i].id
                    &&& r@[i].name == ps[i].name
                    &&& r@[i].description == ps[i].description
                    &&& r@[i].templates == ps[i].templates
                },
        decreases reversed@.len(),
    {
        let ghost k = reversed@.len() - 1;
        let t = reversed.pop().unwrap();
        proof {
            assert(t == reversed@.push(t)[k]);
        }
        r.push(t);
    }
    r
}

/// Completes each of `partials`, in order.
fn complete_initial_nodes(partials: Vec<JsPartialInitialNode>) -> (r: Vec<InitialNode>)
    ensures
        completes_initial_nodes(partials@, r@),
{
    let ghost ps = partials@;
    let mut rest = partials;
    let mut reversed: Vec<InitialNode> = Vec::new();
    while rest.len() > 0
        invariant
            reversed@.len() + rest@.len() == ps.len(),
            rest@ == ps.take(rest@.len() as int),
            forall|i: int| 0 <= i < reversed@.len() ==> completes_initial_node(ps[ps.len() - 1 - i], #[trigger] reversed@[i]),
        decreases rest@.len(),
    {
        let p = rest.pop().unwrap();
        proof {
            assert(p == ps[ps.len() - 1 - reversed@.len()]);
            assert(rest@ =~= ps.take(rest@.len() as int));
        }
        reversed.push(InitialNode::from(p));
    }
    let mut r: Vec<InitialNode> = Vec::new();
    while reversed.len() > 0
        invariant
            reversed@.len() + r@.len() == ps.len(),
            forall|i: int| 0 <= i < reversed@.len() ==> completes_initial_node(ps[ps.len() - 1 - i], #[trigger] reversed@[i]),
            forall|i: int| 0 <= i < r@.len() ==> completes_initial_node(ps[i], #[trigger] r@[i]),
        decreases reversed@.len(),
    {
        let ghost k = reversed@.len() - 1;
        let t = reversed.pop().unwrap();
        proof {
            assert(t == reversed@.push(t)[k]);
        }
        r.push(t);
    }
    r
}

impl From<JsPartialConfig> for GraphCanvasConfig {
    fn from(partial: JsPartialConfig) -> (r: Self)
        ensures
            completes_config(partial, r),
    {
        let default = GraphCanvasConfig::default();
        let node_templates = match partial.node_templates {
            Some(v) => complete_node_templates(v),
            None => Vec::new(),
        };
        let template_groups = match partial.template_groups {
            Some(v) => convert_groups(v),
            None => Vec::new(),
        };
        let initial_nodes = match partial.initial_nodes {
            Some(v) => complete_initial_nodes(v),
            None => Vec::new(),
        };
        GraphCanvasConfig {
            context_menu_size: match partial.context_menu_size {
                Some(x) => x,
                None => default.context_menu_size,
            },
            default_node_width: match partial.default_node_width {
                Some(x) => x,
                None => default.default_node_width,
            },
            default_node_height: match partial.default_node_height {
                Some(x) => x,
                None => default.default_node_height,
            },
            connection_control_point_distance: match partial.connection_control_point_distance {
                Some(x) => x,
                None => default.connection_control_point_distance,
            },
            slot_radius: match partial.slot_radius {
                Some(x) => x,
                None => default.slot_radius,
            },
            node_templates,
            template_groups,
            initial_nodes,
            show_default_toolbar: match partial.show_default_toolbar {
                Some(x) => x,
                None => default.show_default_toolbar,
            },
            snap_to_grid: match partial.snap_to_grid {
                Some(x) => x,
                None => default.snap_to_grid,
            },
            grid_size: match partial.grid_size {
                Some(x) => x,
                None => default.grid_size,
            },
            is_mutable: match partial.is_mutable {
                Some(x) => x,
                None => default.is_mutable,
            },
            is_movable: match partial.is_movable {
                Some(x) => x,
                None => default.is_movable,
            },
        }
    }
}

impl vstd::std_specs::convert::FromSpecImpl<JsPartialConfig> for GraphCanvasConfig {
    open spec fn obeys_from_spec() -> bool {
        false
    }

    open spec fn from_spec(v: JsPartialConfig) -> Self {
        arbitrary()
    }
}

} // verus!
