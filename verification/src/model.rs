//! The templates and instances a graph is made of, with their mathematical
//! views. Positions and sizes are carried as IEEE-754 bit patterns (`u64`):
//! the graph logic stores and copies them but never computes with them.
use vstd::prelude::*;
use vstd::string::*;
use crate::ids::{generate_id, hyphenated_text};
use crate::seqs::{first_index, lemma_first_index, lemma_first_index_is};
use crate::text::str_eq;

verus! {

// ----- enums -----------------------------------------------------------------

/// The value type of a node field.
#[derive(Clone, Copy, Debug, PartialEq, Eq, Structural)]
pub enum FieldType {
    Boolean,
    Integer,
    String,
}

/// The side of a node on which a slot is drawn by default.
#[derive(Clone, Copy, Debug, PartialEq, Eq, Structural)]
pub enum SlotPosition {
    Left,
    Right,
    Top,
    Bottom,
}

/// Whether a slot receives or sends connections.
#[derive(Clone, Copy, Debug, PartialEq, Eq, Structural)]
pub enum SlotType {
    Incoming,
    Outgoing,
}

// ----- connections -----------------------------------------------------------

/// An edge from a slot of a host node to a slot of a target node.
#[derive(Debug)]
pub struct Connection {
    pub can_delete: bool,
    pub host_node_id: String,
    pub host_slot_template_id: String,
    pub target_node_id: String,
    pub target_slot_template_id: String,
}

pub struct ConnectionView {
    pub can_delete: bool,
    pub host_node_id: Seq<char>,
    pub host_slot_template_id: Seq<char>,
    pub target_node_id: Seq<char>,
    pub target_slot_template_id: Seq<char>,
}

impl View for Connection {
    type V = ConnectionView;

    open spec fn view(&self) -> ConnectionView {
        ConnectionView {
            can_delete: self.can_delete,
            host_node_id: self.host_node_id@,
            host_slot_template_id: self.host_slot_template_id@,
            target_node_id: self.target_node_id@,
            target_slot_template_id: self.target_slot_template_id@,
        }
    }
}

impl Clone for Connection {
    fn clone(&self) -> (r: Self)
        ensures
            r == *self,
    {
        Connection {
            can_delete: self.can_delete,
            host_node_id: self.host_node_id.clone(),
            host_slot_template_id: self.host_slot_template_id.clone(),
            target_node_id: self.target_node_id.clone(),
            target_slot_template_id: self.target_slot_template_id.clone(),
        }
    }
}

impl PartialEq for Connection {
    fn eq(&self, other: &Self) -> (r: bool) {
        self.can_delete == other.can_delete && self.host_node_id == other.host_node_id
            && self.host_slot_template_id == other.host_slot_template_id && self.target_node_id
            == other.target_node_id && self.target_slot_template_id
            == other.target_slot_template_id
    }
}

impl vstd::std_specs::cmp::PartialEqSpecImpl for Connection {
    open spec fn obeys_eq_spec() -> bool {
        true
    }

    open spec fn eq_spec(&self, other: &Self) -> bool {
        self@ == other@
    }
}

impl Eq for Connection {

}

pub open spec fn connection_views(s: Seq<Connection>) -> Seq<ConnectionView> {
    s.map_values(|c: Connection| c@)
}

/// Clones a list of connections.
pub fn clone_connections(v: &Vec<Connection>) -> (r: Vec<Connection>)
    ensures
        r@ == v@,
{
    let r = v.clone();
    assert(r@ =~= v@);
    r
}

// ----- slot instances ----------------------------------------------------------

/// A slot of a node instance together with the connections it hosts.
#[derive(Debug)]
pub struct SlotInstance {
    pub slot_template_id: String,
    pub node_template_id: String,
    pub node_instance_id: String,
    pub connections: Vec<Connection>,
    pub can_modify: bool,
}

pub struct SlotInstanceView {
    pub slot_template_id: Seq<char>,
    pub node_template_id: Seq<char>,
    pub node_instance_id: Seq<char>,
    pub connections: Seq<ConnectionView>,
    pub can_modify: bool,
}

impl View for SlotInstance {
    type V = SlotInstanceView;

    open spec fn view(&self) -> SlotInstanceView {
        SlotInstanceView {
            slot_template_id: self.slot_template_id@,
            node_template_id: self.node_template_id@,
            node_instance_id: self.node_instance_id@,
            connections: connection_views(self.connections@),
            can_modify: self.can_modify,
        }
    }
}

impl Clone for SlotInstance {
    fn clone(&self) -> (r: Self)
        ensures
            r@ == self@,
    {
        let connections = clone_connections(&self.connections);
        SlotInstance {
            slot_template_id: self.slot_template_id.clone(),
            node_template_id: self.node_template_id.clone(),
            node_instance_id: self.node_instance_id.clone(),
            connections,
            can_modify: self.can_modify,
        }
    }
}

pub open spec fn slot_instance_views(s: Seq<SlotInstance>) -> Seq<SlotInstanceView> {
    s.map_values(|c: SlotInstance| c@)
}

// ----- field instances ---------------------------------------------------------

/// The value a node instance holds for one of its template's fields.
#[derive(Debug)]
pub struct FieldInstance {
    pub node_instance_id: String,
    pub field_template_id: String,
    pub value: String,
    pub can_modify: bool,
}

pub struct FieldInstanceView {
    pub node_instance_id: Seq<char>,
    pub field_template_id: Seq<char>,
    pub value: Seq<char>,
    pub can_modify: bool,
}

impl View for FieldInstance {
    type V = FieldInstanceView;

    open spec fn view(&self) -> FieldInstanceView {
        FieldInstanceView {
            node_instance_id: self.node_instance_id@,
            field_template_id: self.field_template_id@,
            value: self.value@,
            can_modify: self.can_modify,
        }
    }
}

impl Clone for FieldInstance {
    fn clone(&self) -> (r: Self)
        ensures
            r == *self,
    {
        FieldInstance {
            node_instance_id: self.node_instance_id.clone(),
            field_template_id: self.field_template_id.clone(),
            value: self.value.clone(),
            can_modify: self.can_modify,
        }
    }
}

pub open spec fn field_instance_views(s: Seq<FieldInstance>) -> Seq<FieldInstanceView> {
    s.map_values(|c: FieldInstance| c@)
}

// ----- node instances ----------------------------------------------------------

/// A node of the graph, created from a node template.
#[derive(Debug)]
pub struct NodeInstance {
    pub instance_id: String,
    pub template_id: String,
    pub x: u64,
    pub y: u64,
    pub width: u64,
    pub height: u64,
    pub slots: Vec<SlotInstance>,
    pub fields: Vec<FieldInstance>,
    pub can_delete: bool,
    pub can_move: bool,
    pub can_modify_connections: bool,
    pub can_modify_fields: bool,
}

pub struct NodeInstanceView {
    pub instance_id: Seq<char>,
    pub template_id: Seq<char>,
    pub x: u64,
    pub y: u64,
    pub width: u64,
    pub height: u64,
    pub slots: Seq<SlotInstanceView>,
    pub fields: Seq<FieldInstanceView>,
    pub can_delete: bool,
    pub can_move: bool,
    pub can_modify_connections: bool,
    pub can_modify_fields: bool,
}

impl View for NodeInstance {
    type V = NodeInstanceView;

    open spec fn view(&self) -> NodeInstanceView {
        NodeInstanceView {
            instance_id: self.instance_id@,
            template_id: self.template_id@,
            x: self.x,
            y: self.y,
            width: self.width,
            height: self.height,
            slots: slot_instance_views(self.slots@),
            fields: field_instance_views(self.fields@),
            can_delete: self.can_delete,
            can_move: self.can_move,
            can_modify_connections: self.can_modify_connections,
            can_modify_fields: self.can_modify_fields,
        }
    }
}

impl Clone for NodeInstance {
    fn clone(&self) -> (r: Self)
        ensures
            r@ == self@,
    {
        let slots = self.slots.clone();
        let fields = self.fields.clone();
        assert(slot_instance_views(slots@) =~= slot_instance_views(self.slots@));
        assert(field_instance_views(fields@) =~= field_instance_views(self.fields@));
        NodeInstance {
            instance_id: self.instance_id.clone(),
            template_id: self.template_id.clone(),
            x: self.x,
            y: self.y,
            width: self.width,
            height: self.height,
            slots,
            fields,
            can_delete: self.can_delete,
            can_move: self.can_move,
            can_modify_connections: self.can_modify_connections,
            can_modify_fields: self.can_modify_fields,
        }
    }
}

// ----- templates ---------------------------------------------------------------

/// The definition of a field that node instances of a template carry.
#[derive(Debug)]
pub struct FieldTemplate {
    pub id: String,
    pub name: String,
    pub field_type: FieldType,
    pub default_value: String,
}

pub struct FieldTemplateView {
    pub id: Seq<char>,
    pub name: Seq<char>,
    pub field_type: FieldType,
    pub default_value: Seq<char>,
}

impl View for FieldTemplate {
    type V = FieldTemplateView;

    open spec fn view(&self) -> FieldTemplateView {
        FieldTemplateView {
            id: self.id@,
            name: self.name@,
            field_type: self.field_type,
            default_value: self.default_value@,
        }
    }
}

impl Clone for FieldTemplate {
    fn clone(&self) -> (r: Self)
        ensures
            r == *self,
    {
        FieldTemplate {
            id: self.id.clone(),
            name: self.name.clone(),
            field_type: self.field_type,
            default_value: self.default_value.clone(),
        }
    }
}

impl FieldTemplate {
    /// A field template with a freshly generated id.
    pub fn new(name: &str, field_type: FieldType, default_value: &str) -> (r: Self)
        ensures
            exists|v: u128| r.id@ == hyphenated_text(v),
            r.name@ == name@,
            r.field_type == field_type,
            r.default_value@ == default_value@,
    {
        FieldTemplate {
            id: generate_id(),
            name: String::from_str(name),
            field_type,
            default_value: String::from_str(default_value),
        }
    }
}

pub open spec fn field_template_views(s: Seq<FieldTemplate>) -> Seq<FieldTemplateView> {
    s.map_values(|c: FieldTemplate| c@)
}

/// The definition of a slot that node instances of a template carry.
#[derive(Debug)]
pub struct SlotTemplate {
    pub id: String,
    pub name: String,
    pub position: SlotPosition,
    pub slot_type: SlotType,
    /// Ids of the node templates this slot may connect to.
    pub allowed_connections: Vec<String>,
    pub min_connections: usize,
    pub max_connections: Option<usize>,
    pub can_modify_connections: bool,
}

pub struct SlotTemplateView {
    pub id: Seq<char>,
    pub name: Seq<char>,
    pub position: SlotPosition,
    pub slot_type: SlotType,
    pub allowed_connections: Seq<Seq<char>>,
    pub min_connections: usize,
    pub max_connections: Option<usize>,
    pub can_modify_connections: bool,
}

pub open spec fn string_views(s: Seq<String>) -> Seq<Seq<char>> {
    s.map_values(|c: String| c@)
}

impl View for SlotTemplate {
    type V = SlotTemplateView;

    open spec fn view(&self) -> SlotTemplateView {
        SlotTemplateView {
            id: self.id@,
            name: self.name@,
            position: self.position,
            slot_type: self.slot_type,
            allowed_connections: string_views(self.allowed_connections@),
            min_connections: self.min_connections,
            max_connections: self.max_connections,
            can_modify_connections: self.can_modify_connections,
        }
    }
}

/// Clones a list of strings.
pub fn clone_strings(v: &Vec<String>) -> (r: Vec<String>)
    ensures
        r@ == v@,
{
    let r = v.clone();
    assert(r@ =~= v@);
    r
}

impl Clone for SlotTemplate {
    fn clone(&self) -> (r: Self)
        ensures
            r@ == self@,
    {
        SlotTemplate {
            id: self.id.clone(),
            name: self.name.clone(),
            position: self.position,
            slot_type: self.slot_type,
            allowed_connections: clone_strings(&self.allowed_connections),
            min_connections: self.min_connections,
            max_connections: self.max_connections,
            can_modify_connections: self.can_modify_connections,
        }
    }
}

impl SlotTemplate {
    /// An outgoing slot on the right side, with a freshly generated id, no
    /// allowed targets, and no bound on its number of connections.
    pub fn new(name: &str) -> (r: Self)
        ensures
            exists|v: u128| r.id@ == hyphenated_text(v),
            r.name@ == name@,
            r.position == SlotPosition::Right,
            r.slot_type == SlotType::Outgoing,
            r.allowed_connections@.len() == 0,
            r.min_connections == 0,
            r.max_connections is None,
            r.can_modify_connections,
    {
        SlotTemplate {
            id: generate_id(),
            name: String::from_str(name),
            position: SlotPosition::Right,
            slot_type: SlotType::Outgoing,
            allowed_connections: Vec::new(),
            min_connections: 0,
            max_connections: None,
            can_modify_connections: true,
        }
    }
}

pub open spec fn slot_template_views(s: Seq<SlotTemplate>) -> Seq<SlotTemplateView> {
    s.map_values(|c: SlotTemplate| c@)
}

/// Bit pattern of the default node width (150).
pub const DEFAULT_NODE_WIDTH_BITS: u64 = 0x4062c00000000000u64;

/// Bit pattern of the default node height (100).
pub const DEFAULT_NODE_HEIGHT_BITS: u64 = 0x4059000000000000u64;

/// The definition of a kind of node: its slots, its fields, and the rules on
/// how many instances may exist and what may be changed.
#[derive(Debug)]
pub struct NodeTemplate {
    pub template_id: String,
    pub name: String,
    pub slot_templates: Vec<SlotTemplate>,
    pub field_templates: Vec<FieldTemplate>,
    pub max_instances: Option<usize>,
    pub min_instances: Option<usize>,
    pub can_delete: bool,
    pub can_create: bool,
    pub can_modify_slots: bool,
    pub can_modify_fields: bool,
    pub default_width: u64,
    pub default_height: u64,
}

pub struct NodeTemplateView {
    pub template_id: Seq<char>,
    pub name: Seq<char>,
    pub slot_templates: Seq<SlotTemplateView>,
    pub field_templates: Seq<FieldTemplateView>,
    pub max_instances: Option<usize>,
    pub min_instances: Option<usize>,
    pub can_delete: bool,
    pub can_create: bool,
    pub can_modify_slots: bool,
    pub can_modify_fields: bool,
    pub default_width: u64,
    pub default_height: u64,
}

impl View for NodeTemplate {
    type V = NodeTemplateView;

    open spec fn view(&self) -> NodeTemplateView {
        NodeTemplateView {
            template_id: self.template_id@,
            name: self.name@,
            slot_templates: slot_template_views(self.slot_templates@),
            field_templates: field_template_views(self.field_templates@),
            max_instances: self.max_instances,
            min_instances: self.min_instances,
            can_delete: self.can_delete,
            can_create: self.can_create,
            can_modify_slots: self.can_modify_slots,
            can_modify_fields: self.can_modify_fields,
            default_width: self.default_width,
            default_height: self.default_height,
        }
    }
}

/// Clones a list of slot templates.
pub fn clone_slot_templates(v: &Vec<SlotTemplate>) -> (r: Vec<SlotTemplate>)
    ensures
        slot_template_views(r@) == slot_template_views(v@),
{
    let r = v.clone();
    assert(slot_template_views(r@) =~= slot_template_views(v@));
    r
}

impl Clone for NodeTemplate {
    fn clone(&self) -> (r: Self)
        ensures
            r@ == self@,
    {
        let slot_templates = clone_slot_templates(&self.slot_templates);
        let field_templates = self.field_templates.clone();
        assert(field_template_views(field_templates@) =~= field_template_views(
            self.field_templates@,
        ));
        NodeTemplate {
            template_id: self.template_id.clone(),
            name: self.name.clone(),
            slot_templates,
            field_templates,
            max_instances: self.max_instances,
            min_instances: self.min_instances,
            can_delete: self.can_delete,
            can_create: self.can_create,
            can_modify_slots: self.can_modify_slots,
            can_modify_fields: self.can_modify_fields,
            default_width: self.default_width,
            default_height: self.default_height,
        }
    }
}

impl NodeTemplate {
    /// A template with a freshly generated id, no slots or fields, no bounds
    /// on its number of instances, every permission granted, and the default
    /// size.
    pub fn new(name: &str) -> (r: Self)
        ensures
            exists|v: u128| r.template_id@ == hyphenated_text(v),
            r.name@ == name@,
            r.slot_templates@.len() == 0,
            r.field_templates@.len() == 0,
            r.max_instances is None,
            r.min_instances is None,
            r.can_delete,
            r.can_create,
            r.can_modify_slots,
            r.can_modify_fields,
            r.default_width == DEFAULT_NODE_WIDTH_BITS,
            r.default_height == DEFAULT_NODE_HEIGHT_BITS,
    {
        NodeTemplate {
            template_id: generate_id(),
            name: String::from_str(name),
            slot_templates: Vec::new(),
            field_templates: Vec::new(),
            max_instances: None,
            min_instances: None,
            can_delete: true,
            can_create: true,
            default_width: DEFAULT_NODE_WIDTH_BITS,
            default_height: DEFAULT_NODE_HEIGHT_BITS,
            can_modify_slots: true,
            can_modify_fields: true,
        }
    }
}

// ----- finding slot templates --------------------------------------------------

pub open spec fn slot_template_with_id(id: Seq<char>) -> spec_fn(SlotTemplateView) -> bool {
    |t: SlotTemplateView| t.id == id
}

pub open spec fn slot_template_with_name(name: Seq<char>) -> spec_fn(SlotTemplateView) -> bool {
    |t: SlotTemplateView| t.name == name
}

/// The first slot template of `t` whose id is `id`.
pub open spec fn slot_template_by_id(t: NodeTemplateView, id: Seq<char>) -> Option<SlotTemplateView> {
    match first_index(t.slot_templates, slot_template_with_id(id)) {
        Some(i) => Some(t.slot_templates[i]),
        None => None,
    }
}

/// The first slot template of `t` whose name is `name`.
pub open spec fn slot_template_by_name(t: NodeTemplateView, name: Seq<char>) -> Option<SlotTemplateView> {
    match first_index(t.slot_templates, slot_template_with_name(name)) {
        Some(i) => Some(t.slot_templates[i]),
        None => None,
    }
}

pub open spec fn slot_with_template_id(id: Seq<char>) -> spec_fn(SlotInstanceView) -> bool {
    |s: SlotInstanceView| s.slot_template_id == id
}

pub open spec fn field_template_with_id(id: Seq<char>) -> spec_fn(FieldTemplateView) -> bool {
    |t: FieldTemplateView| t.id == id
}

pub open spec fn field_with_template_id(id: Seq<char>) -> spec_fn(FieldInstanceView) -> bool {
    |f: FieldInstanceView| f.field_template_id == id
}

/// The index of the first slot of `n` made from slot template `id`.
pub open spec fn slot_index(n: NodeInstanceView, id: Seq<char>) -> Option<int> {
    first_index(n.slots, slot_with_template_id(id))
}

impl NodeTemplate {
    /// The index of the first slot template with id `id`.
    pub fn slot_template_index(&self, id: &str) -> (r: Option<usize>)
        ensures
            match r {
                Some(i) => i < self.slot_templates@.len() && first_index(self@.slot_templates, slot_template_with_id(id@)) == Some(
                    i as int,
                ),
                None => first_index(self@.slot_templates, slot_template_with_id(id@)) is None,
            },
    {
        let ghost p = slot_template_with_id(id@);
        let ghost s = self@.slot_templates;
        let n = self.slot_templates.len();
        let mut i: usize = 0;
        while i < n
            invariant
                n == self.slot_templates@.len(),
                s == self@.slot_templates,
                p == slot_template_with_id(id@),
                i <= n,
                forall|j: int| 0 <= j < i ==> !p(#[trigger] s[j]),
            decreases n - i,
        {
            if str_eq(self.slot_templates[i].id.as_str(), id) {
                proof {
                    lemma_first_index_is(s, p, i as int);
                }
                return Some(i);
            }
            i = i + 1;
        }
        proof {
            lemma_first_index(s, p);
        }
        None
    }

    /// The index of the first slot template named `name`.
    pub fn slot_template_index_by_name(&self, name: &str) -> (r: Option<usize>)
        ensures
            match r {
                Some(i) => i < self.slot_templates@.len() && first_index(self@.slot_templates, slot_template_with_name(name@))
                    == Some(i as int),
                None => first_index(self@.slot_templates, slot_template_with_name(name@)) is None,
            },
    {
        let ghost p = slot_template_with_name(name@);
        let ghost s = self@.slot_templates;
        let n = self.slot_templates.len();
        let mut i: usize = 0;
        while i < n
            invariant
                n == self.slot_templates@.len(),
                s == self@.slot_templates,
                p == slot_template_with_name(name@),
                i <= n,
                forall|j: int| 0 <= j < i ==> !p(#[trigger] s[j]),
            decreases n - i,
        {
            if str_eq(self.slot_templates[i].name.as_str(), name) {
                proof {
                    lemma_first_index_is(s, p, i as int);
                }
                return Some(i);
            }
            i = i + 1;
        }
        proof {
            lemma_first_index(s, p);
        }
        None
    }

    /// The index of the first field template with id `id`.
    pub fn field_template_index(&self, id: &str) -> (r: Option<usize>)
        ensures
            match r {
                Some(i) => i < self.field_templates@.len() && first_index(self@.field_templates, field_template_with_id(id@))
                    == Some(i as int),
                None => first_index(self@.field_templates, field_template_with_id(id@)) is None,
            },
    {
        let ghost p = field_template_with_id(id@);
        let ghost s = self@.field_templates;
        let n = self.field_templates.len();
        let mut i: usize = 0;
        while i < n
            invariant
                n == self.field_templates@.len(),
                s == self@.field_templates,
                p == field_template_with_id(id@),
                i <= n,
                forall|j: int| 0 <= j < i ==> !p(#[trigger] s[j]),
            decreases n - i,
        {
            if str_eq(self.field_templates[i].id.as_str(), id) {
                proof {
                    lemma_first_index_is(s, p, i as int);
                }
                return Some(i);
            }
            i = i + 1;
        }
        proof {
            lemma_first_index(s, p);
        }
        None
    }
}

impl NodeInstance {
    /// The index of the first slot made from slot template `id`.
    pub fn slot_index(&self, id: &str) -> (r: Option<usize>)
        ensures
            match r {
                Some(i) => i < self.slots@.len() && slot_index(self@, id@) == Some(i as int),
                None => slot_index(self@, id@) is None,
            },
    {
        let ghost p = slot_with_template_id(id@);
        let ghost s = self@.slots;
        let n = self.slots.len();
        let mut i: usize = 0;
        while i < n
            invariant
                n == self.slots@.len(),
                s == self@.slots,
                p == slot_with_template_id(id@),
                i <= n,
                forall|j: int| 0 <= j < i ==> !p(#[trigger] s[j]),
            decreases n - i,
        {
            if str_eq(self.slots[i].slot_template_id.as_str(), id) {
                proof {
                    lemma_first_index_is(s, p, i as int);
                }
                return Some(i);
            }
            i = i + 1;
        }
        proof {
            lemma_first_index(s, p);
        }
        None
    }

    /// The index of the first field made from field template `id`.
    pub fn field_index(&self, id: &str) -> (r: Option<usize>)
        ensures
            match r {
                Some(i) => i < self.fields@.len() && first_index(self@.fields, field_with_template_id(id@)) == Some(i as int),
                None => first_index(self@.fields, field_with_template_id(id@)) is None,
            },
    {
        let ghost p = field_with_template_id(id@);
        let ghost s = self@.fields;
        let n = self.fields.len();
        let mut i: usize = 0;
        while i < n
            invariant
                n == self.fields@.len(),
                s == self@.fields,
                p == field_with_template_id(id@),
                i <= n,
                forall|j: int| 0 <= j < i ==> !p(#[trigger] s[j]),
            decreases n - i,
        {
            if str_eq(self.fields[i].field_template_id.as_str(), id) {
                proof {
                    lemma_first_index_is(s, p, i as int);
                }
                return Some(i);
            }
            i = i + 1;
        }
        proof {
            lemma_first_index(s, p);
        }
        None
    }
}

} // verus!
