//! Configuration: template groups, the nodes a graph starts with, and the
//! canvas settings.
use vstd::prelude::*;
use vstd::string::*;
use crate::ids::{hyphenated_text, uuid_text};
use crate::connect::contains_string;
use crate::graph::node_template_views;
use crate::model::{clone_strings, string_views, NodeTemplate, NodeTemplateView, DEFAULT_NODE_HEIGHT_BITS, DEFAULT_NODE_WIDTH_BITS};
use crate::seqs::{first_index, lemma_first_index, lemma_first_index_is};
use crate::text::str_eq;

verus! {

/// A named group of node templates, listed by template id.
#[derive(Debug)]
pub struct TemplateGroup {
    pub id: String,
    pub name: String,
    pub description: Option<String>,
    pub templates: Vec<String>,
}

pub struct TemplateGroupView {
    pub id: Seq<char>,
    pub name: Seq<char>,
    pub description: Option<Seq<char>>,
    pub templates: Seq<Seq<char>>,
}

impl View for TemplateGroup {
    type V = TemplateGroupView;

    open spec fn view(&self) -> TemplateGroupView {
        TemplateGroupView {
            id: self.id@,
            name: self.name@,
            description: match self.description {
                Some(d) => Some(d@),
                None => None,
            },
            templates: string_views(self.templates@),
        }
    }
}

pub open spec fn template_group_views(s: Seq<TemplateGroup>) -> Seq<TemplateGroupView> {
    s.map_values(|g: TemplateGroup| g@)
}

impl TemplateGroup {
    /// An empty group without description.
    pub fn new(id: &str, name: &str) -> (r: Self)
        ensures
            r@ == (TemplateGroupView { id: id@, name: name@, description: None, templates: Seq::empty() }),
    {
        proof {
            assert(string_views(Seq::<String>::empty()) =~= Seq::<Seq<char>>::empty());
        }
        TemplateGroup {
            id: String::from_str(id),
            name: String::from_str(name),
            description: None,
            templates: Vec::new(),
        }
    }
}

/// Refers to a node template by its name or by its id.
#[derive(Debug)]
pub enum TemplateIdentifier {
    Name(String),
    Id(String),
}

pub enum TemplateIdentifierView {
    Name(Seq<char>),
    Id(Seq<char>),
}

impl View for TemplateIdentifier {
    type V = TemplateIdentifierView;

    open spec fn view(&self) -> TemplateIdentifierView {
        match self {
            TemplateIdentifier::Name(n) => TemplateIdentifierView::Name(n@),
            TemplateIdentifier::Id(i) => TemplateIdentifierView::Id(i@),
        }
    }
}

impl Clone for TemplateIdentifier {
    fn clone(&self) -> (r: Self)
        ensures
            r == *self,
    {
        match self {
            TemplateIdentifier::Name(n) => TemplateIdentifier::Name(n.clone()),
            TemplateIdentifier::Id(i) => TemplateIdentifier::Id(i.clone()),
        }
    }
}

/// The text an identifier carries.
pub open spec fn identifier_text(t: TemplateIdentifierView) -> Seq<char> {
    match t {
        TemplateIdentifierView::Name(n) => n,
        TemplateIdentifierView::Id(i) => i,
    }
}

impl TemplateIdentifier {
    /// The name or the id, whichever the identifier holds.
    pub fn to_string(&self) -> (r: String)
        ensures
            r@ == identifier_text(self@),
    {
        match self {
            TemplateIdentifier::Name(name) => name.clone(),
            TemplateIdentifier::Id(id) => id.clone(),
        }
    }
}

impl From<u128> for TemplateIdentifier {
    /// The id whose text is the hyphenated form of `id`.
    fn from(id: u128) -> (r: Self)
        ensures
            r@ == TemplateIdentifierView::Id(hyphenated_text(id)),
    {
        TemplateIdentifier::Id(uuid_text(id))
    }
}

impl vstd::std_specs::convert::FromSpecImpl<u128> for TemplateIdentifier {
    open spec fn obeys_from_spec() -> bool {
        false
    }

    open spec fn from_spec(v: u128) -> Self {
        arbitrary()
    }
}

/// A connection that an initial node makes from one of its slots, named by
/// slot name, to another initial node.
#[derive(Debug)]
pub struct InitialConnection {
    pub host_slot_name: String,
    pub target_instance_id: String,
    pub can_delete: bool,
}

pub struct InitialConnectionView {
    pub host_slot_name: Seq<char>,
    pub target_instance_id: Seq<char>,
    pub can_delete: bool,
}

impl View for InitialConnection {
    type V = InitialConnectionView;

    open spec fn view(&self) -> InitialConnectionView {
        InitialConnectionView {
            host_slot_name: self.host_slot_name@,
            target_instance_id: self.target_instance_id@,
            can_delete: self.can_delete,
        }
    }
}

impl Clone for InitialConnection {
    fn clone(&self) -> (r: Self)
        ensures
            r == *self,
    {
        InitialConnection {
            host_slot_name: self.host_slot_name.clone(),
            target_instance_id: self.target_instance_id.clone(),
            can_delete: self.can_delete,
        }
    }
}

/// The starting value of one field of an initial node.
#[derive(Debug)]
pub struct InitialFieldValue {
    pub field_template_id: String,
    pub value: String,
}

pub struct InitialFieldValueView {
    pub field_template_id: Seq<char>,
    pub value: Seq<char>,
}

impl View for InitialFieldValue {
    type V = InitialFieldValueView;

    open spec fn view(&self) -> InitialFieldValueView {
        InitialFieldValueView { field_template_id: self.field_template_id@, value: self.value@ }
    }
}

impl Clone for InitialFieldValue {
    fn clone(&self) -> (r: Self)
        ensures
            r == *self,
    {
        InitialFieldValue {
            field_template_id: self.field_template_id.clone(),
            value: self.value.clone(),
        }
    }
}

/// Bit pattern of the default initial coordinate (10).
pub const INITIAL_COORDINATE_BITS: u64 = 0x4024000000000000u64;

/// A node the graph starts with. `x` and `y` are bit patterns of the
/// coordinates.
#[derive(Debug)]
pub struct InitialNode {
    pub template_identifier: TemplateIdentifier,
    pub x: u64,
    pub y: u64,
    pub can_delete: bool,
    pub can_move: bool,
    pub initial_connections: Vec<InitialConnection>,
    pub id: Option<String>,
    pub initial_field_values: Vec<InitialFieldValue>,
}

pub struct InitialNodeView {
    pub template_identifier: TemplateIdentifierView,
    pub x: u64,
    pub y: u64,
    pub can_delete: bool,
    pub can_move: bool,
    pub initial_connections: Seq<InitialConnectionView>,
    pub id: Option<Seq<char>>,
    pub initial_field_values: Seq<InitialFieldValueView>,
}

impl View for InitialNode {
    type V = InitialNodeView;

    open spec fn view(&self) -> InitialNodeView {
        InitialNodeView {
            template_identifier: self.template_identifier@,
            x: self.x,
            y: self.y,
            can_delete: self.can_delete,
            can_move: self.can_move,
            initial_connections: self.initial_connections@.map_values(|c: InitialConnection| c@),
            id: match self.id {
                Some(i) => Some(i@),
                None => None,
            },
            initial_field_values: self.initial_field_values@.map_values(|v: InitialFieldValue| v@),
        }
    }
}

pub open spec fn initial_node_views(s: Seq<InitialNode>) -> Seq<InitialNodeView> {
    s.map_values(|n: InitialNode| n@)
}

impl InitialNode {
    /// A deletable, movable node at (10, 10) with no connections, no id and
    /// no field values.
    pub fn new(template_identifier: TemplateIdentifier) -> (r: Self)
        ensures
            r.template_identifier == template_identifier,
            r.x == INITIAL_COORDINATE_BITS,
            r.y == INITIAL_COORDINATE_BITS,
            r.can_delete,
            r.can_move,
            r.initial_connections@.len() == 0,
            r.id is None,
            r.initial_field_values@.len() == 0,
    {
        InitialNode {
            template_identifier,
            x: INITIAL_COORDINATE_BITS,
            y: INITIAL_COORDINATE_BITS,
            can_delete: true,
            can_move: true,
            initial_connections: Vec::new(),
            id: None,
            initial_field_values: Vec::new(),
        }
    }
}

/// Bit pattern of 400, the default context menu width.
pub const CONTEXT_MENU_WIDTH_BITS: u64 = 0x4079000000000000u64;

/// Bit pattern of 100, the default context menu height.
pub const CONTEXT_MENU_HEIGHT_BITS: u64 = 0x4059000000000000u64;

/// Bit pattern of 75, the default distance of a connection's control points.
pub const CONTROL_POINT_DISTANCE_BITS: u64 = 0x4052c00000000000u64;

/// Bit pattern of 12, the default slot radius.
pub const SLOT_RADIUS_BITS: u64 = 0x4028000000000000u64;

/// Bit pattern of 20, the default grid size.
pub const GRID_SIZE_BITS: u64 = 0x4034000000000000u64;

/// The settings of a canvas: visual sizes (as bit patterns of the numbers),
/// the templates and nodes it starts with, and what the user may do.
#[derive(Debug)]
pub struct GraphCanvasConfig {
    pub context_menu_size: (u64, u64),
    pub default_node_width: u64,
    pub default_node_height: u64,
    pub connection_control_point_distance: u64,
    pub slot_radius: u64,
    pub node_templates: Vec<NodeTemplate>,
    pub template_groups: Vec<TemplateGroup>,
    pub initial_nodes: Vec<InitialNode>,
    pub show_default_toolbar: bool,
    pub snap_to_grid: bool,
    pub grid_size: u64,
    pub is_mutable: bool,
    pub is_movable: bool,
}

/// The default settings: the sizes above, no templates, groups or initial
/// nodes, the toolbar shown, no snapping, and a mutable, movable canvas.
pub open spec fn default_config(c: GraphCanvasConfig) -> bool {
    &&& c.context_menu_size == (CONTEXT_MENU_WIDTH_BITS, CONTEXT_MENU_HEIGHT_BITS)
    &&& c.default_node_width == DEFAULT_NODE_WIDTH_BITS
    &&& c.default_node_height == DEFAULT_NODE_HEIGHT_BITS
    &&& c.connection_control_point_distance == CONTROL_POINT_DISTANCE_BITS
    &&& c.slot_radius == SLOT_RADIUS_BITS
    &&& c.node_templates@.len() == 0
    &&& c.template_groups@.len() == 0
    &&& c.initial_nodes@.len() == 0
    &&& c.show_default_toolbar
    &&& !c.snap_to_grid
    &&& c.grid_size == GRID_SIZE_BITS
    &&& c.is_mutable
    &&& c.is_movable
}

/// `a` and `b` agree on everything but their template groups.
pub open spec fn same_but_groups(a: GraphCanvasConfig, b: GraphCanvasConfig) -> bool {
    &&& a.context_menu_size == b.context_menu_size
    &&& a.default_node_width == b.default_node_width
    &&& a.default_node_height == b.default_node_height
    &&& a.connection_control_point_distance == b.connection_control_point_distance
    &&& a.slot_radius == b.slot_radius
    &&& a.node_templates == b.node_templates
    &&& a.initial_nodes == b.initial_nodes
    &&& a.show_default_toolbar == b.show_default_toolbar
    &&& a.snap_to_grid == b.snap_to_grid
    &&& a.grid_size == b.grid_size
    &&& a.is_mutable == b.is_mutable
    &&& a.is_movable == b.is_movable
}

pub open spec fn group_with_id(id: Seq<char>) -> spec_fn(TemplateGroupView) -> bool {
    |g: TemplateGroupView| g.id == id
}

/// The groups after template `tid` is added to the first group with id
/// `gid`, unless there is none or that group lists `tid` already.
pub open spec fn groups_with_template(gs: Seq<TemplateGroupView>, tid: Seq<char>, gid: Seq<char>) -> Seq<TemplateGroupView> {
    match first_index(gs, group_with_id(gid)) {
        Some(i) => if gs[i].templates.contains(tid) {
            gs
        } else {
            gs.update(i, TemplateGroupView { templates: gs[i].templates.push(tid), ..gs[i] })
        },
        None => gs,
    }
}

/// Whether adding template `tid` to group `gid` changes the groups.
pub open spec fn template_added(gs: Seq<TemplateGroupView>, tid: Seq<char>, gid: Seq<char>) -> bool {
    match first_index(gs, group_with_id(gid)) {
        Some(i) => !gs[i].templates.contains(tid),
        None => false,
    }
}

/// The templates of `ts` that group `g` lists by id, in the order of `ts`.
pub open spec fn templates_in_group(ts: Seq<NodeTemplateView>, g: TemplateGroupView) -> Seq<NodeTemplateView> {
    ts.filter(|t: NodeTemplateView| g.templates.contains(t.template_id))
}

/// The templates that `get_templates_by_group` lists for group `gid`.
pub open spec fn templates_of_group(ts: Seq<NodeTemplateView>, gs: Seq<TemplateGroupView>, gid: Seq<char>) -> Seq<NodeTemplateView> {
    match first_index(gs, group_with_id(gid)) {
        Some(i) => templates_in_group(ts, gs[i]),
        None => Seq::empty(),
    }
}

/// A template with id `id`.
pub open spec fn template_with_id(id: Seq<char>) -> spec_fn(NodeTemplateView) -> bool {
    |t: NodeTemplateView| t.template_id == id
}

/// Every template id that a group lists belongs to some template.
pub open spec fn group_ids_known(ts: Seq<NodeTemplateView>, gs: Seq<TemplateGroupView>) -> bool {
    forall|i: int, j: int|
        0 <= i < gs.len() && 0 <= j < gs[i].templates.len() ==> first_index(
            ts,
            template_with_id(#[trigger] gs[i].templates[j]),
        ) is Some
}

/// The first template with id `id`.
pub open spec fn template_of_id(ts: Seq<NodeTemplateView>, name: Seq<char>) -> NodeTemplateView {
    ts[first_index(ts, template_with_id(name))->0]
}

/// The templates a group lists, each found by id.
pub open spec fn group_members(ts: Seq<NodeTemplateView>, g: TemplateGroupView) -> Seq<NodeTemplateView> {
    g.templates.map_values(|n: Seq<char>| template_of_id(ts, n))
}

/// One entry per group that lists templates: the group's id and its templates.
pub open spec fn group_entries(ts: Seq<NodeTemplateView>, gs: Seq<TemplateGroupView>) -> Seq<(Seq<char>, Seq<NodeTemplateView>)>
    decreases gs.len(),
{
    if gs.len() == 0 {
        Seq::empty()
    } else {
        let rest = group_entries(ts, gs.drop_last());
        if gs.last().templates.len() > 0 {
            rest.push((gs.last().id, group_members(ts, gs.last())))
        } else {
            rest
        }
    }
}

/// Template `id` is listed in some group.
pub open spec fn assigned_to_group(ts: Seq<NodeTemplateView>, gs: Seq<TemplateGroupView>, id: Seq<char>) -> bool {
    exists|i: int, j: int|
        0 <= i < gs.len() && 0 <= j < gs[i].templates.len() && #[trigger] template_of_id(ts, gs[i].templates[j]).template_id == id
}

pub open spec fn ungrouped(ts: Seq<NodeTemplateView>, gs: Seq<TemplateGroupView>) -> spec_fn(NodeTemplateView) -> bool {
    |t: NodeTemplateView| !assigned_to_group(ts, gs, t.template_id) && t.can_create
}

/// The templates that may be created and are in no group.
pub open spec fn ungrouped_templates(ts: Seq<NodeTemplateView>, gs: Seq<TemplateGroupView>) -> Seq<NodeTemplateView> {
    ts.filter(ungrouped(ts, gs))
}

/// The groups for the toolbar: an entry per non-empty group, then an entry
/// "other" for the creatable templates in no group, if there are any.
pub open spec fn template_group_map(ts: Seq<NodeTemplateView>, gs: Seq<TemplateGroupView>) -> Seq<(Seq<char>, Seq<NodeTemplateView>)> {
    let other = ungrouped_templates(ts, gs);
    if other.len() > 0 {
        group_entries(ts, gs).push(("other"@, other))
    } else {
        group_entries(ts, gs)
    }
}

pub open spec fn template_ref_views(s: Seq<&NodeTemplate>) -> Seq<NodeTemplateView> {
    s.map_values(|t: &NodeTemplate| t@)
}

pub open spec fn group_map_views(s: Seq<(String, Vec<&NodeTemplate>)>) -> Seq<(Seq<char>, Seq<NodeTemplateView>)> {
    s.map_values(|e: (String, Vec<&NodeTemplate>)| (e.0@, template_ref_views(e.1@)))
}

impl GraphCanvasConfig {
    /// The default settings.
    pub fn new() -> (r: Self)
        ensures
            default_config(r),
    {
        GraphCanvasConfig {
            context_menu_size: (CONTEXT_MENU_WIDTH_BITS, CONTEXT_MENU_HEIGHT_BITS),
            default_node_width: DEFAULT_NODE_WIDTH_BITS,
            default_node_height: DEFAULT_NODE_HEIGHT_BITS,
            connection_control_point_distance: CONTROL_POINT_DISTANCE_BITS,
            slot_radius: SLOT_RADIUS_BITS,
            node_templates: Vec::new(),
            template_groups: Vec::new(),
            initial_nodes: Vec::new(),
            show_default_toolbar: true,
            snap_to_grid: false,
            grid_size: GRID_SIZE_BITS,
            is_mutable: true,
            is_movable: true,
        }
    }

    /// Adds template `template_id` to the first group with id `group_id`;
    /// reports whether it did, which it does not when there is no such group
    /// or the group lists the template already.
    pub fn add_template_to_group(&mut self, template_id: &str, group_id: &str) -> (r: bool)
        ensures
            same_but_groups(*final(self), *old(self)),
            template_group_views(final(self).template_groups@) == groups_with_template(
                template_group_views(old(self).template_groups@),
                template_id@,
                group_id@,
            ),
            r == template_added(template_group_views(old(self).template_groups@), template_id@, group_id@),
    {
        let ghost gs = template_group_views(self.template_groups@);
        let ghost p = group_with_id(group_id@);
        let n = self.template_groups.len();
        let mut i: usize = 0;
        while i < n
            invariant
                n == self.template_groups@.len(),
                gs == template_group_views(self.template_groups@),
                *self == *old(self),
                p == group_with_id(group_id@),
                i <= n,
                forall|j: int| 0 <= j < i ==> !p(#[trigger] gs[j]),
            decreases n - i,
        {
            if str_eq(self.template_groups[i].id.as_str(), group_id) {
                proof {
                    assert(p(gs[i as int]));
                    lemma_first_index_is(gs, p, i as int);
                    assert(gs[i as int] == self.template_groups@[i as int]@);
                }
                let tid = String::from_str(template_id);
                if contains_string(&self.template_groups[i].templates, &tid) {
                    return false;
                }
                let mut templates = clone_strings(&self.template_groups[i].templates);
                let ghost before = templates@;
                templates.push(tid);
                proof {
                    assert(string_views(templates@) =~= string_views(before).push(template_id@));
                }
                self.template_groups[i].templates = templates;
                proof {
                    assert(template_group_views(self.template_groups@) =~= gs.update(
                        i as int,
                        TemplateGroupView { templates: gs[i as int].templates.push(template_id@), ..gs[i as int] },
                    ));
                }
                return true;
            }
            proof {
                assert(!p(gs[i as int]));
            }
            i = i + 1;
        }
        proof {
            lemma_first_index(gs, p);
        }
        false
    }

    /// The templates that the first group with id `group_id` lists, in the
    /// order of the configuration's templates; none when there is no such
    /// group.
    pub fn get_templates_by_group(&self, group_id: &str) -> (r: Vec<&NodeTemplate>)
        ensures
            template_ref_views(r@) == templates_of_group(
                node_template_views(self.node_templates@),
                template_group_views(self.template_groups@),
                group_id@,
            ),
    {
        let ghost gs = template_group_views(self.template_groups@);
        let ghost ts = node_template_views(self.node_templates@);
        let ghost p = group_with_id(group_id@);
        let n = self.template_groups.len();
        let mut i: usize = 0;
        while i < n
            invariant
                n == self.template_groups@.len(),
                gs == template_group_views(self.template_groups@),
                ts == node_template_views(self.node_templates@),
                p == group_with_id(group_id@),
                i <= n,
                forall|j: int| 0 <= j < i ==> !p(#[trigger] gs[j]),
            decreases n - i,
        {
            if str_eq(self.template_groups[i].id.as_str(), group_id) {
                proof {
                    assert(p(gs[i as int]));
                    lemma_first_index_is(gs, p, i as int);
                    assert(gs[i as int] == self.template_groups@[i as int]@);
                }
                let group = &self.template_groups[i];
                let ghost gv = gs[i as int];
                let ghost q = |t: NodeTemplateView| gv.templates.contains(t.template_id);
                let mut r: Vec<&NodeTemplate> = Vec::new();
                let m = self.node_templates.len();
                let mut k: usize = 0;
                proof {
                    reveal(Seq::filter);
                    assert(ts.take(0) =~= Seq::<NodeTemplateView>::empty());
                    assert(template_ref_views(r@) =~= Seq::<NodeTemplateView>::empty());
                }
                while k < m
                    invariant
                        m == self.node_templates@.len(),
                        ts == node_template_views(self.node_templates@),
                        gv == group@,
                        q == (|t: NodeTemplateView| gv.templates.contains(t.template_id)),
                        k <= m,
                        template_ref_views(r@) == ts.take(k as int).filter(q),
                    decreases m - k,
                {
                    let ghost before = r@;
                    proof {
                        reveal(Seq::filter);
                        assert(ts.take(k + 1).drop_last() =~= ts.take(k as int));
                        assert(ts.take(k + 1).last() == self.node_templates@[k as int]@);
                    }
                    if contains_string(&group.templates, &self.node_templates[k].template_id) {
                        r.push(&self.node_templates[k]);
                        proof {
                            assert(template_ref_views(r@) =~= template_ref_views(before).push(self.node_templates@[k as int]@));
                        }
                    }
                    k = k + 1;
                }
                proof {
                    assert(ts.take(m as int) =~= ts);
                }
                return r;
            }
            proof {
                assert(!p(gs[i as int]));
            }
            i = i + 1;
        }
        proof {
            lemma_first_index(gs, p);
        }
        let r: Vec<&NodeTemplate> = Vec::new();
        proof {
            assert(template_ref_views(r@) =~= Seq::<NodeTemplateView>::empty());
        }
        r
    }
}

impl Clone for GraphCanvasConfig {
    /// A copy with the same settings and templates.
    fn clone(&self) -> (r: Self)
        ensures
            r.context_menu_size == self.context_menu_size,
            r.default_node_width == self.default_node_width,
            r.default_node_height == self.default_node_height,
            r.connection_control_point_distance == self.connection_control_point_distance,
            r.slot_radius == self.slot_radius,
            node_template_views(r.node_templates@) == node_template_views(self.node_templates@),
            template_group_views(r.template_groups@) == template_group_views(self.template_groups@),
            initial_node_views(r.initial_nodes@) == initial_node_views(self.initial_nodes@),
            r.show_default_toolbar == self.show_default_toolbar,
            r.snap_to_grid == self.snap_to_grid,
            r.grid_size == self.grid_size,
            r.is_mutable == self.is_mutable,
            r.is_movable == self.is_movable,
    {
        let node_templates = self.node_templates.clone();
        let template_groups = self.template_groups.clone();
        let initial_nodes = self.initial_nodes.clone();
        proof {
            assert(node_template_views(node_templates@) =~= node_template_views(self.node_templates@));
            assert(template_group_views(template_groups@) =~= template_group_views(self.template_groups@));
            assert(initial_node_views(initial_nodes@) =~= initial_node_views(self.initial_nodes@));
        }
        GraphCanvasConfig {
            context_menu_size: self.context_menu_size,
            default_node_width: self.default_node_width,
            default_node_height: self.default_node_height,
            connection_control_point_distance: self.connection_control_point_distance,
            slot_radius: self.slot_radius,
            node_templates,
            template_groups,
            initial_nodes,
            show_default_toolbar: self.show_default_toolbar,
            snap_to_grid: self.snap_to_grid,
            grid_size: self.grid_size,
            is_mutable: self.is_mutable,
            is_movable: self.is_movable,
        }
    }
}

impl Default for GraphCanvasConfig {
    fn default() -> (r: Self)
        ensures
            default_config(r),
    {
        Self::new()
    }
}

impl GraphCanvasConfig {
    /// Where the first template with id `id` is stored.
    fn template_index_by_id(&self, id: &String) -> (r: usize)
        requires
            first_index(node_template_views(self.node_templates@), template_with_id(id@)) is Some,
        ensures
            r < self.node_templates@.len(),
            first_index(node_template_views(self.node_templates@), template_with_id(id@)) == Some(r as int),
    {
        let ghost ts = node_template_views(self.node_templates@);
        let ghost p = template_with_id(id@);
        proof {
            lemma_first_index(ts, p);
        }
        let n = self.node_templates.len();
        let mut i: usize = 0;
        while i < n
            invariant
                n == self.node_templates@.len(),
                ts == node_template_views(self.node_templates@),
                p == template_with_id(id@),
                first_index(ts, p) is Some,
                i <= n,
                forall|j: int| 0 <= j < i ==> !p(#[trigger] ts[j]),
            decreases n - i,
        {
            if self.node_templates[i].template_id == *id {
                proof {
                    assert(p(ts[i as int]));
                    lemma_first_index_is(ts, p, i as int);
                }
                return i;
            }
            proof {
                assert(!p(ts[i as int]));
            }
            i = i + 1;
        }
        proof {
            lemma_first_index(ts, p);
        }
        0
    }

    /// The templates for the toolbar: for each group that lists templates,
    /// its id and its templates, each found by id; then, under "other",
    /// the templates that may be created and are in no group, if any.
    pub fn get_template_group_map(&self) -> (r: Vec<(String, Vec<&NodeTemplate>)>)
        requires
            group_ids_known(node_template_views(self.node_templates@), template_group_views(self.template_groups@)),
        ensures
            group_map_views(r@) == template_group_map(
                node_template_views(self.node_templates@),
                template_group_views(self.template_groups@),
            ),
    {
        let ghost ts = node_template_views(self.node_templates@);
        let ghost gs = template_group_views(self.template_groups@);
        let mut result: Vec<(String, Vec<&NodeTemplate>)> = Vec::new();
        let mut assigned: Vec<String> = Vec::new();
        let n = self.template_groups.len();
        let mut i: usize = 0;
        proof {
            assert(gs.take(0) =~= Seq::<TemplateGroupView>::empty());
            assert(group_map_views(result@) =~= Seq::<(Seq<char>, Seq<NodeTemplateView>)>::empty());
        }
        while i < n
            invariant
                n == self.template_groups@.len(),
                ts == node_template_views(self.node_templates@),
                gs == template_group_views(self.template_groups@),
                group_ids_known(ts, gs),
                i <= n,
                group_map_views(result@) == group_entries(ts, gs.take(i as int)),
                forall|id: Seq<char>| #[trigger] string_views(assigned@).contains(id) <==> assigned_to_group(ts, gs.take(i as int), id),
            decreases n - i,
        {
            let group = &self.template_groups[i];
            let ghost g = gs[i as int];
            proof {
                assert(g == group@);
                assert(gs.take(i + 1).drop_last() =~= gs.take(i as int));
                assert(gs.take(i + 1).last() == g);
            }
            let mut templates: Vec<&NodeTemplate> = Vec::new();
            let m = group.templates.len();
            let mut j: usize = 0;
            proof {
                assert(template_ref_views(templates@) =~= group_members(ts, g).take(0));
            }
            while j < m
                invariant
                    n == self.template_groups@.len(),
                    i < n,
                    ts == node_template_views(self.node_templates@),
                    gs == template_group_views(self.template_groups@),
                    g == gs[i as int],
                    g == group@,
                    m == group.templates@.len(),
                    group_ids_known(ts, gs),
                    j <= m,
                    template_ref_views(templates@) == group_members(ts, g).take(j as int),
                    forall|id: Seq<char>| #[trigger] string_views(assigned@).contains(id) <==> (assigned_to_group(ts, gs.take(i as int), id)
                        || exists|q: int| 0 <= q < j && template_of_id(ts, #[trigger] g.templates[q]).template_id == id),
                decreases m - j,
            {
                proof {
                    assert(g.templates[j as int] == group.templates@[j as int]@);
                    assert(first_index(ts, template_with_id(gs[i as int].templates[j as int])) is Some);
                }
                let idx = self.template_index_by_id(&group.templates[j]);
                let ghost t = template_of_id(ts, g.templates[j as int]);
                proof {
                    assert(self.node_templates@[idx as int]@ == t);
                }
                let ghost before = templates@;
                let ghost abefore = assigned@;
                templates.push(&self.node_templates[idx]);
                assigned.push(self.node_templates[idx].template_id.clone());
                proof {
                    assert(template_ref_views(templates@) =~= template_ref_views(before).push(t));
                    assert(group_members(ts, g).take(j + 1) =~= group_members(ts, g).take(j as int).push(t));
                    assert(string_views(assigned@) =~= string_views(abefore).push(t.template_id));
                    assert forall|id: Seq<char>| #[trigger] string_views(assigned@).contains(id) <==> (assigned_to_group(ts, gs.take(i as int), id)
                        || exists|q: int| 0 <= q < j + 1 && template_of_id(ts, #[trigger] g.templates[q]).template_id == id) by {
                        if string_views(assigned@).contains(id) && id != t.template_id {
                            let k = choose|k: int| 0 <= k < string_views(assigned@).len() && string_views(assigned@)[k] == id;
                            assert(string_views(abefore)[k] == id);
                        }
                        if id == t.template_id {
                            assert(string_views(assigned@)[string_views(abefore).len() as int] == id);
                        }
                        if string_views(abefore).contains(id) {
                            let k = choose|k: int| 0 <= k < string_views(abefore).len() && string_views(abefore)[k] == id;
                            assert(string_views(assigned@)[k] == id);
                        }
                    }
                }
                j = j + 1;
            }
            proof {
                assert(group_members(ts, g).take(m as int) =~= group_members(ts, g));
                assert forall|id: Seq<char>| #[trigger] string_views(assigned@).contains(id) <==> assigned_to_group(ts, gs.take(i + 1), id) by {
                    let gt = gs.take(i + 1);
                    if assigned_to_group(ts, gt, id) {
                        let (a, b) = choose|a: int, b: int|
                            0 <= a < gt.len() && 0 <= b < gt[a].templates.len() && #[trigger] template_of_id(ts, gt[a].templates[b]).template_id == id;
                        if a < i {
                            assert(gs.take(i as int)[a] == gt[a]);
                            assert(template_of_id(ts, gs.take(i as int)[a].templates[b]).template_id == id);
                        } else {
                            assert(template_of_id(ts, g.templates[b]).template_id == id);
                        }
                    }
                    if assigned_to_group(ts, gs.take(i as int), id) {
                        let (a, b) = choose|a: int, b: int|
                            0 <= a < i && 0 <= b < gs.take(i as int)[a].templates.len()
                                && #[trigger] template_of_id(ts, gs.take(i as int)[a].templates[b]).template_id == id;
                        assert(gt[a] == gs.take(i as int)[a]);
                        assert(template_of_id(ts, gt[a].templates[b]).template_id == id);
                    }
                    if exists|q: int| 0 <= q < m && template_of_id(ts, #[trigger] g.templates[q]).template_id == id {
                        let q = choose|q: int| 0 <= q < m && template_of_id(ts, #[trigger] g.templates[q]).template_id == id;
                        assert(gt[i as int] == g);
                        assert(template_of_id(ts, gt[i as int].templates[q]).template_id == id);
                    }
                }
            }
            if templates.len() > 0 {
                let ghost before = result@;
                result.push((group.id.clone(), templates));
                proof {
                    assert(group_map_views(result@) =~= group_map_views(before).push((g.id, group_members(ts, g))));
                }
            }
            i = i + 1;
        }
        proof {
            assert(gs.take(n as int) =~= gs);
        }
        let ghost pred = ungrouped(ts, gs);
        let mut other: Vec<&NodeTemplate> = Vec::new();
        let m = self.node_templates.len();
        let mut k: usize = 0;
        proof {
            reveal(Seq::filter);
            assert(ts.take(0) =~= Seq::<NodeTemplateView>::empty());
            assert(template_ref_views(other@) =~= Seq::<NodeTemplateView>::empty());
        }
        while k < m
            invariant
                m == self.node_templates@.len(),
                ts == node_template_views(self.node_templates@),
                pred == ungrouped(ts, gs),
                forall|id: Seq<char>| #[trigger] string_views(assigned@).contains(id) <==> assigned_to_group(ts, gs, id),
                k <= m,
                template_ref_views(other@) == ts.take(k as int).filter(pred),
            decreases m - k,
        {
            let ghost before = other@;
            proof {
                reveal(Seq::filter);
                assert(ts.take(k + 1).drop_last() =~= ts.take(k as int));
                assert(ts.take(k + 1).last() == self.node_templates@[k as int]@);
            }
            let t = &self.node_templates[k];
            if !contains_string(&assigned, &t.template_id) && t.can_create {
                other.push(t);
                proof {
                    assert(template_ref_views(other@) =~= template_ref_views(before).push(t@));
                }
            }
            k = k + 1;
        }
        proof {
            assert(ts.take(m as int) =~= ts);
        }
        if other.len() > 0 {
            let ghost before = result@;
            result.push((String::from_str("other"), other));
            proof {
                assert(group_map_views(result@) =~= group_map_views(before).push(("other"@, ungrouped_templates(ts, gs))));
            }
        }
        result
    }
}

/// The templates that may be created, in order.
pub open spec fn creatable_templates(ts: Seq<NodeTemplateView>) -> Seq<NodeTemplateView>
    decreases ts.len(),
{
    if ts.len() == 0 {
        Seq::empty()
    } else if ts.last().can_create {
        creatable_templates(ts.drop_last()).push(ts.last())
    } else {
        creatable_templates(ts.drop_last())
    }
}

/// The groups the toolbar offers: without configured groups, the templates
/// that may be created, under "All Templates" (nothing when there are
/// none); otherwise the group map.
pub open spec fn toolbar_groups(ts: Seq<NodeTemplateView>, gs: Seq<TemplateGroupView>) -> Seq<(Seq<char>, Seq<NodeTemplateView>)> {
    if gs.len() == 0 {
        let c = creatable_templates(ts);
        if c.len() > 0 {
            seq![("All Templates"@, c)]
        } else {
            Seq::empty()
        }
    } else {
        template_group_map(ts, gs)
    }
}

/// The title of the toolbar tab for group `gid`: "Other" for the group of
/// ungrouped templates, the name of the first group with that id, or else
/// the id itself.
pub open spec fn group_title(gs: Seq<TemplateGroupView>, gid: Seq<char>) -> Seq<char> {
    if gid == "other"@ {
        "Other"@
    } else {
        match first_index(gs, group_with_id(gid)) {
            Some(i) => gs[i].name,
            None => gid,
        }
    }
}

impl GraphCanvasConfig {
    /// The groups of templates the toolbar offers, as `toolbar_groups`
    /// describes them.
    pub fn toolbar_template_groups(&self) -> (r: Vec<(String, Vec<&NodeTemplate>)>)
        requires
            group_ids_known(node_template_views(self.node_templates@), template_group_views(self.template_groups@)),
        ensures
            group_map_views(r@) == toolbar_groups(
                node_template_views(self.node_templates@),
                template_group_views(self.template_groups@),
            ),
    {
        if self.template_groups.len() > 0 {
            return self.get_template_group_map();
        }
        let ghost ts = node_template_views(self.node_templates@);
        let mut creatable: Vec<&NodeTemplate> = Vec::new();
        let mut i: usize = 0;
        proof {
            assert(ts.take(0) =~= Seq::<NodeTemplateView>::empty());
            assert(template_ref_views(creatable@) =~= Seq::<NodeTemplateView>::empty());
        }
        while i < self.node_templates.len()
            invariant
                ts == node_template_views(self.node_templates@),
                i <= ts.len(),
                template_ref_views(creatable@) == creatable_templates(ts.take(i as int)),
            decreases ts.len() - i,
        {
            let t = &self.node_templates[i];
            let ghost before = creatable@;
            proof {
                assert(ts.take(i + 1).drop_last() =~= ts.take(i as int));
                assert(ts.take(i + 1).last() == t@);
            }
            if t.can_create {
                creatable.push(t);
                proof {
                    assert(template_ref_views(creatable@) =~= template_ref_views(before).push(t@));
                }
            }
            i = i + 1;
        }
        proof {
            assert(ts.take(ts.len() as int) =~= ts);
        }
        let mut r: Vec<(String, Vec<&NodeTemplate>)> = Vec::new();
        if creatable.len() > 0 {
            let ghost c = template_ref_views(creatable@);
            r.push((String::from_str("All Templates"), creatable));
            proof {
                assert(group_map_views(r@) =~= seq![("All Templates"@, c)]);
            }
        } else {
            proof {
                assert(group_map_views(r@) =~= Seq::<(Seq<char>, Seq<NodeTemplateView>)>::empty());
            }
        }
        r
    }

    /// The title of the toolbar tab for group `group_id`, as `group_title`
    /// describes it.
    pub fn group_display_name(&self, group_id: &str) -> (r: String)
        ensures
            r@ == group_title(template_group_views(self.template_groups@), group_id@),
    {
        if str_eq(group_id, "other") {
            return String::from_str("Other");
        }
        let ghost gs = template_group_views(self.template_groups@);
        let ghost p = group_with_id(group_id@);
        let n = self.template_groups.len();
        let mut i: usize = 0;
        while i < n
            invariant
                n == self.template_groups@.len(),
                gs == template_group_views(self.template_groups@),
                p == group_with_id(group_id@),
                group_id@ != "other"@,
                i <= n,
                forall|j: int| 0 <= j < i ==> !p(#[trigger] gs[j]),
            decreases n - i,
        {
            if str_eq(self.template_groups[i].id.as_str(), group_id) {
                proof {
                    assert(gs[i as int] == self.template_groups@[i as int]@);
                    assert(p(gs[i as int]));
                    lemma_first_index_is(gs, p, i as int);
                }
                return self.template_groups[i].name.clone();
            }
            proof {
                assert(gs[i as int] == self.template_groups@[i as int]@);
            }
            i = i + 1;
        }
        proof {
            lemma_first_index(gs, p);
        }
        group_id.to_string()
    }
}

/// A copy of a possibly missing text.
fn clone_text_option(o: &Option<String>) -> (r: Option<String>)
    ensures
        r == *o,
{
    match o {
        Some(t) => Some(t.clone()),
        None => None,
    }
}

impl Clone for TemplateGroup {
    fn clone(&self) -> (r: Self)
        ensures
            r@ == self@,
    {
        TemplateGroup {
            id: self.id.clone(),
            name: self.name.clone(),
            description: clone_text_option(&self.description),
            templates: clone_strings(&self.templates),
        }
    }
}

impl Clone for InitialNode {
    fn clone(&self) -> (r: Self)
        ensures
            r@ == self@,
    {
        let initial_connections = self.initial_connections.clone();
        let initial_field_values = self.initial_field_values.clone();
        let r = InitialNode {
            template_identifier: self.template_identifier.clone(),
            x: self.x,
            y: self.y,
            can_delete: self.can_delete,
            can_move: self.can_move,
            initial_connections,
            id: clone_text_option(&self.id),
            initial_field_values,
        };
        assert(r@.initial_connections =~= self@.initial_connections);
        assert(r@.initial_field_values =~= self@.initial_field_values);
        r
    }
}

impl GraphCanvasConfig {
    /// The first template id, group by group, that no template has, with
    /// the name of the group listing it; `None` when every listed id
    /// belongs to some template.
    pub fn unknown_group_template(&self) -> (r: Option<(String, String)>)
        ensures
            r is None <==> group_ids_known(node_template_views(self.node_templates@), template_group_views(self.template_groups@)),
            r matches Some((t, g)) ==> exists|i: int, j: int|
                0 <= i < self.template_groups@.len() && 0 <= j < self.template_groups@[i].templates@.len()
                    && #[trigger] self.template_groups@[i].templates@[j]@ == t@ && g@ == self.template_groups@[i].name@
                    && first_index(node_template_views(self.node_templates@), template_with_id(t@)) is None,
    {
        let ghost ts = node_template_views(self.node_templates@);
        let ghost gs = template_group_views(self.template_groups@);
        let n = self.template_groups.len();
        let mut i: usize = 0;
        while i < n
            invariant
                n == self.template_groups@.len(),
                ts == node_template_views(self.node_templates@),
                gs == template_group_views(self.template_groups@),
                i <= n,
                forall|a: int, b: int|
                    0 <= a < i && 0 <= b < gs[a].templates.len() ==> first_index(ts, template_with_id(#[trigger] gs[a].templates[b])) is Some,
            decreases n - i,
        {
            let group = &self.template_groups[i];
            proof {
                assert(gs[i as int] == group@);
            }
            let m = group.templates.len();
            let mut j: usize = 0;
            while j < m
                invariant
                    n == self.template_groups@.len(),
                    ts == node_template_views(self.node_templates@),
                    gs == template_group_views(self.template_groups@),
                    i < n,
                    gs[i as int] == group@,
                    group == self.template_groups@[i as int],
                    m == group.templates@.len(),
                    j <= m,
                    forall|a: int, b: int|
                        0 <= a < i && 0 <= b < gs[a].templates.len() ==> first_index(ts, template_with_id(#[trigger] gs[a].templates[b])) is Some,
                    forall|b: int| 0 <= b < j ==> first_index(ts, template_with_id(#[trigger] gs[i as int].templates[b])) is Some,
                decreases m - j,
            {
                let name = &group.templates[j];
                let ghost p = template_with_id(name@);
                let mut found = false;
                let mut k: usize = 0;
                while k < self.node_templates.len()
                    invariant
                        ts == node_template_views(self.node_templates@),
                        p == template_with_id(name@),
                        k <= ts.len(),
                        !found ==> forall|q: int| 0 <= q < k ==> !p(#[trigger] ts[q]),
                        found ==> first_index(ts, p) is Some,
                    decreases ts.len() - k,
                {
                    proof {
                        assert(ts[k as int] == self.node_templates@[k as int]@);
                    }
                    if str_eq(self.node_templates[k].template_id.as_str(), name.as_str()) {
                        proof {
                            assert(p(ts[k as int]));
                            lemma_first_index(ts, p);
                        }
                        found = true;
                    }
                    k = k + 1;
                }
                proof {
                    assert(gs[i as int].templates[j as int] == name@);
                }
                if !found {
                    proof {
                        lemma_first_index(ts, p);
                        assert(first_index(ts, p) is None);
                        assert(self.template_groups@[i as int].templates@[j as int]@ == name@);
                        assert(!group_ids_known(ts, gs)) by {
                            assert(first_index(ts, template_with_id(gs[i as int].templates[j as int])) is None);
                        }
                    }
                    let r = (name.clone(), group.name.clone());
                    assert(self.template_groups@[i as int].templates@[j as int]@ == r.0@ && r.1@ == self.template_groups@[i as int].name@);
                    return Some(r);
                }
                j = j + 1;
            }
            i = i + 1;
        }
        None
    }
}

} // verus!
