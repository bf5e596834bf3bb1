//! Read-only questions about a graph: the template behind an instance or a
//! slot, how many instances a template has, which connections a node hosts,
//! and whether every slot respects its bounds.
use vstd::prelude::*;
use crate::config::{identifier_text, TemplateIdentifier, TemplateIdentifierView};
use crate::graph::{node_instance_views, node_template_views, instance_key, template_key, view_well_formed, Graph, GraphView};
use crate::model::{
    slot_index, slot_template_by_id, slot_template_by_name, slot_template_with_id,
    slot_template_with_name, Connection, ConnectionView, NodeInstance, NodeInstanceView,
    NodeTemplate, NodeTemplateView, SlotInstance, SlotInstanceView, SlotTemplate,
    SlotTemplateView,
};
use crate::seqs::{distinct_keys, first_index, keyed, lemma_first_index, lemma_keyed_dom, lemma_keyed_index};
use crate::text::str_eq;

verus! {

/// Looking up the slot templates of a node template.
pub trait NodeTemplateInfo {
    fn get_slot_template(&self, slot_id: &str) -> Option<&SlotTemplate>;

    fn get_slot_template_by_name(&self, slot_name: &str) -> Option<&SlotTemplate>;
}

impl NodeTemplateInfo for NodeTemplate {
    /// The first slot template with id `slot_id`.
    fn get_slot_template(&self, slot_id: &str) -> (r: Option<&SlotTemplate>)
        ensures
            match r {
                Some(t) => slot_template_by_id(self@, slot_id@) == Some(t@),
                None => slot_template_by_id(self@, slot_id@) is None,
            },
    {
        match self.slot_template_index(slot_id) {
            Some(i) => Some(&self.slot_templates[i]),
            None => None,
        }
    }

    /// The first slot template named `slot_name`.
    fn get_slot_template_by_name(&self, slot_name: &str) -> (r: Option<&SlotTemplate>)
        ensures
            match r {
                Some(t) => slot_template_by_name(self@, slot_name@) == Some(t@),
                None => slot_template_by_name(self@, slot_name@) is None,
            },
    {
        match self.slot_template_index_by_name(slot_name) {
            Some(i) => Some(&self.slot_templates[i]),
            None => None,
        }
    }
}

/// A node instance together with its template.
pub struct NodeCapabilities<'a> {
    pub template: &'a NodeTemplate,
    pub instance: &'a NodeInstance,
}

impl<'a> NodeCapabilities<'a> {
    pub fn new(template: &'a NodeTemplate, instance: &'a NodeInstance) -> (r: Self)
        ensures
            r.template == template,
            r.instance == instance,
    {
        NodeCapabilities { template, instance }
    }
}

impl NodeTemplateInfo for NodeCapabilities<'_> {
    /// The first slot template of the node's template with id `slot_id`.
    fn get_slot_template(&self, slot_id: &str) -> (r: Option<&SlotTemplate>)
        ensures
            match r {
                Some(t) => slot_template_by_id(self.template@, slot_id@) == Some(t@),
                None => slot_template_by_id(self.template@, slot_id@) is None,
            },
    {
        self.template.get_slot_template(slot_id)
    }

    /// The first slot template of the node's template named `slot_name`.
    fn get_slot_template_by_name(&self, slot_name: &str) -> (r: Option<&SlotTemplate>)
        ensures
            match r {
                Some(t) => slot_template_by_name(self.template@, slot_name@) == Some(t@),
                None => slot_template_by_name(self.template@, slot_name@) is None,
            },
    {
        self.template.get_slot_template_by_name(slot_name)
    }
}

/// A slot instance together with its slot template.
pub struct SlotCapabilities<'a> {
    pub template: &'a SlotTemplate,
    pub instance: &'a SlotInstance,
}

/// The slot template and the slot found for slot template `sid` on node
/// `node`: the node's first slot made from `sid`, and the first slot template
/// with that id in the template the slot names.
pub open spec fn slot_caps(g: GraphView, node: Seq<char>, sid: Seq<char>) -> Option<
    (SlotTemplateView, SlotInstanceView),
> {
    if !g.instances.dom().contains(node) {
        None
    } else {
        match slot_index(g.instances[node], sid) {
            None => None,
            Some(k) => {
                let s = g.instances[node].slots[k];
                if !g.templates.dom().contains(s.node_template_id) {
                    None
                } else {
                    match slot_template_by_id(g.templates[s.node_template_id], s.slot_template_id) {
                        Some(t) => Some((t, s)),
                        None => None,
                    }
                }
            },
        }
    }
}

/// The ids of the node instances made from template `tid`.
pub open spec fn instance_ids_of_template(g: GraphView, tid: Seq<char>) -> Set<Seq<char>> {
    g.instances.dom().filter(|id: Seq<char>| g.instances[id].template_id == tid)
}

/// Whether template `tid` admits one more instance.
pub open spec fn template_admits_instance(g: GraphView, tid: Seq<char>) -> bool {
    match g.templates[tid].max_instances {
        Some(m) => instance_ids_of_template(g, tid).len() < m,
        None => true,
    }
}

/// Every connection count lies within its slot template's bounds, pairing
/// slots and slot templates by position.
pub open spec fn slots_within_bounds(n: NodeInstanceView, t: NodeTemplateView) -> bool {
    forall|k: int|
        0 <= k < n.slots.len() && k < t.slot_templates.len() ==> {
            &&& (#[trigger] n.slots[k]).connections.len() >= t.slot_templates[k].min_connections
            &&& (t.slot_templates[k].max_connections matches Some(m) ==> n.slots[k].connections.len() <= m)
        }
}

/// A slot holding fewer connections than its slot template's minimum, or
/// more than its maximum, makes the graph invalid; counts within the bounds
/// everywhere make it valid.
proof fn lemma_bounds_decide_validity(g: GraphView)
    ensures
        forall|id: Seq<char>, k: int|
            g.instances.dom().contains(id) && g.templates.dom().contains(g.instances[id].template_id) && 0 <= k
                < g.instances[id].slots.len() && k < g.templates[g.instances[id].template_id].slot_templates.len()
                && (#[trigger] g.instances[id].slots[k]).connections.len()
                < g.templates[g.instances[id].template_id].slot_templates[k].min_connections ==> !graph_valid(g),
        forall|id: Seq<char>, k: int|
            g.instances.dom().contains(id) && g.templates.dom().contains(g.instances[id].template_id) && 0 <= k
                < g.instances[id].slots.len() && k < g.templates[g.instances[id].template_id].slot_templates.len()
                && g.templates[g.instances[id].template_id].slot_templates[k].max_connections is Some
                && (#[trigger] g.instances[id].slots[k]).connections.len()
                > g.templates[g.instances[id].template_id].slot_templates[k].max_connections->0 ==> !graph_valid(g),
        (forall|id: Seq<char>, k: int|
            g.instances.dom().contains(id) && g.templates.dom().contains(g.instances[id].template_id) && 0 <= k
                < g.instances[id].slots.len() && k < g.templates[g.instances[id].template_id].slot_templates.len() ==> {
                let c = (#[trigger] g.instances[id].slots[k]).connections.len();
                let st = g.templates[g.instances[id].template_id].slot_templates[k];
                &&& st.min_connections <= c
                &&& (st.max_connections matches Some(m) ==> c <= m)
            }) ==> graph_valid(g),
{
    assert forall|id: Seq<char>, k: int|
        g.instances.dom().contains(id) && g.templates.dom().contains(g.instances[id].template_id) && 0 <= k
            < g.instances[id].slots.len() && k < g.templates[g.instances[id].template_id].slot_templates.len()
            && ((#[trigger] g.instances[id].slots[k]).connections.len()
            < g.templates[g.instances[id].template_id].slot_templates[k].min_connections || (
        g.templates[g.instances[id].template_id].slot_templates[k].max_connections is Some
            && g.instances[id].slots[k].connections.len()
            > g.templates[g.instances[id].template_id].slot_templates[k].max_connections->0)) implies !graph_valid(g) by {
        if graph_valid(g) {
            assert(g.instances.dom().contains(id));
            assert(slots_within_bounds(g.instances[id], g.templates[g.instances[id].template_id]));
        }
    }
}

/// Every node instance with a registered template respects the bounds of its
/// slots.
pub open spec fn graph_valid(g: GraphView) -> bool {
    forall|id: Seq<char>|
        #[trigger] g.instances.dom().contains(id) && g.templates.dom().contains(
            g.instances[id].template_id,
        ) ==> slots_within_bounds(g.instances[id], g.templates[g.instances[id].template_id])
}

/// All connections hosted by the slots of `n`, slot by slot.
pub open spec fn hosted_connections(slots: Seq<SlotInstanceView>) -> Seq<ConnectionView>
    decreases slots.len(),
{
    if slots.len() == 0 {
        Seq::empty()
    } else {
        hosted_connections(slots.drop_last()) + slots.last().connections
    }
}

/// The template that `id` refers to: by name, some template with that name;
/// by id, the template with that id.
pub open spec fn identified_by(g: GraphView, id: TemplateIdentifierView, t: NodeTemplateView) -> bool {
    match id {
        TemplateIdentifierView::Name(n) => exists|k: Seq<char>|
            #[trigger] g.templates.dom().contains(k) && g.templates[k] == t && t.name == n,
        TemplateIdentifierView::Id(i) => g.templates.dom().contains(i) && g.templates[i] == t,
    }
}

/// Some template is referred to by `id`.
pub open spec fn identifies_some(g: GraphView, id: TemplateIdentifierView) -> bool {
    match id {
        TemplateIdentifierView::Name(n) => exists|k: Seq<char>|
            #[trigger] g.templates.dom().contains(k) && g.templates[k].name == n,
        TemplateIdentifierView::Id(i) => g.templates.dom().contains(i),
    }
}

impl NodeInstance {
    /// This instance together with its template.
    pub fn capabilities<'a>(&'a self, graph: &'a Graph) -> (r: NodeCapabilities<'a>)
        requires
            graph.wf(),
            graph@.templates.dom().contains(self@.template_id),
        ensures
            r.instance == self,
            r.template@ == graph@.templates[self@.template_id],
    {
        let template = graph.template(self.template_id.as_str()).unwrap();
        NodeCapabilities { template, instance: self }
    }
}

impl SlotInstance {
    /// This slot together with its slot template.
    pub fn capabilities<'a>(&'a self, graph: &'a Graph) -> (r: SlotCapabilities<'a>)
        requires
            graph.wf(),
            graph@.templates.dom().contains(self@.node_template_id),
            slot_template_by_id(graph@.templates[self@.node_template_id], self@.slot_template_id) is Some,
        ensures
            r.instance == self,
            Some(r.template@) == slot_template_by_id(
                graph@.templates[self@.node_template_id],
                self@.slot_template_id,
            ),
    {
        let node_template = graph.template(self.node_template_id.as_str()).unwrap();
        let slot_template = node_template.get_slot_template(self.slot_template_id.as_str()).unwrap();
        SlotCapabilities { template: slot_template, instance: self }
    }
}

impl Graph {
    /// The node instance with id `instance_id` and its template.
    pub fn get_node_capabilities(&self, instance_id: &str) -> (r: Option<NodeCapabilities<'_>>)
        requires
            self.wf(),
        ensures
            r is Some <==> self@.instances.dom().contains(instance_id@),
            r matches Some(c) ==> {
                &&& c.instance@ == self@.instances[instance_id@]
                &&& self@.templates.dom().contains(c.instance@.template_id)
                &&& c.template@ == self@.templates[c.instance@.template_id]
            },
    {
        proof {
            self.lemma_wf();
        }
        let instance = self.instance(instance_id)?;
        let template = self.template(instance.template_id.as_str())?;
        Some(NodeCapabilities { template, instance })
    }

    /// The first slot of node `node_instance_id` made from slot template
    /// `slot_template_id`, with that slot template.
    pub fn get_slot_capabilities(&self, node_instance_id: &str, slot_template_id: &str) -> (r: Option<
        SlotCapabilities<'_>,
    >)
        requires
            self.wf(),
        ensures
            match r {
                Some(c) => slot_caps(self@, node_instance_id@, slot_template_id@) == Some(
                    (c.template@, c.instance@),
                ),
                None => slot_caps(self@, node_instance_id@, slot_template_id@) is None,
            },
    {
        let instance = self.instance(node_instance_id)?;
        let k = instance.slot_index(slot_template_id)?;
        let slot = &instance.slots[k];
        let template = self.template(slot.node_template_id.as_str())?;
        let slot_template = template.get_slot_template(slot.slot_template_id.as_str())?;
        Some(SlotCapabilities { template: slot_template, instance: slot })
    }

    /// The ids of the node instances made from template `template_id`, each once.
    pub fn instances_of_node_template(&self, template_id: &str) -> (r: Vec<String>)
        requires
            self.wf(),
        ensures
            r@.map_values(|s: String| s@).no_duplicates(),
            r@.map_values(|s: String| s@).to_set() == instance_ids_of_template(self@, template_id@),
    {
        let list = self.instance_list();
        let ghost s = node_instance_views(list@);
        let ghost g = self@;
        let mut r: Vec<String> = Vec::new();
        let n = list.len();
        let mut i: usize = 0;
        while i < n
            invariant
                n == list@.len(),
                s == node_instance_views(list@),
                distinct_keys(s, instance_key()),
                i <= n,
                r@.map_values(|x: String| x@).no_duplicates(),
                forall|a: int|
                    0 <= a < r@.len() ==> exists|j: int|
                        0 <= j < i && (#[trigger] r@[a])@ == s[j].instance_id && s[j].template_id
                            == template_id@,
                forall|j: int|
                    0 <= j < i && (#[trigger] s[j]).template_id == template_id@ ==> r@.map_values(
                        |x: String| x@,
                    ).contains(s[j].instance_id),
            decreases n - i,
        {
            let ghost old_r = r@;
            if str_eq(list[i].template_id.as_str(), template_id) {
                r.push(list[i].instance_id.clone());
                proof {
                    let rv = r@.map_values(|x: String| x@);
                    let orv = old_r.map_values(|x: String| x@);
                    assert(rv =~= orv.push(s[i as int].instance_id));
                    assert forall|a: int| 0 <= a < orv.len() implies orv[a] != s[i as int].instance_id by {
                        assert(old_r[a]@ == orv[a]);
                        let j = choose|j: int|
                            0 <= j < i && (#[trigger] old_r[a])@ == s[j].instance_id
                                && s[j].template_id == template_id@;
                        assert(s[j].instance_id != s[i as int].instance_id);
                    }
                    assert forall|a: int| 0 <= a < r@.len() implies exists|j: int|
                        0 <= j < i + 1 && (#[trigger] r@[a])@ == s[j].instance_id && s[j].template_id
                            == template_id@ by {
                        if a < old_r.len() {
                            assert(r@[a] == old_r[a]);
                            let j = choose|j: int|
                                0 <= j < i && (#[trigger] old_r[a])@ == s[j].instance_id
                                    && s[j].template_id == template_id@;
                        } else {
                            assert(r@[a]@ == s[i as int].instance_id);
                        }
                    }
                    assert forall|j: int|
                        0 <= j < i + 1 && (#[trigger] s[j]).template_id == template_id@ implies rv.contains(
                        s[j].instance_id,
                    ) by {
                        if j < i {
                            assert(orv.contains(s[j].instance_id));
                            let a = choose|a: int| 0 <= a < orv.len() && orv[a] == s[j].instance_id;
                            assert(rv[a] == orv[a]);
                        } else {
                            assert(rv[rv.len() - 1] == s[j].instance_id);
                        }
                    }
                }
            } else {
                proof {
                    assert(s[i as int].template_id != template_id@);
                }
            }
            i = i + 1;
        }
        proof {
            let rv = r@.map_values(|x: String| x@);
            let target = instance_ids_of_template(g, template_id@);
            assert forall|id: Seq<char>| rv.to_set().contains(id) == target.contains(id) by {
                lemma_keyed_dom(s, instance_key(), id);
                if rv.to_set().contains(id) {
                    let a = choose|a: int| 0 <= a < rv.len() && rv[a] == id;
                    assert(r@[a]@ == rv[a]);
                    let j = choose|j: int|
                        0 <= j < n && (#[trigger] r@[a])@ == s[j].instance_id && s[j].template_id
                            == template_id@;
                    lemma_keyed_index(s, instance_key(), j);
                }
                if target.contains(id) {
                    let j = choose|j: int| 0 <= j < s.len() && (instance_key())(s[j]) == id;
                    lemma_keyed_index(s, instance_key(), j);
                }
            }
            assert(rv.to_set() =~= target);
        }
        r
    }

    /// Whether template `node_template_id` admits one more instance under its
    /// maximum.
    pub fn node_template_can_add_instance(&self, node_template_id: &str) -> (r: bool)
        requires
            self.wf(),
            self@.templates.dom().contains(node_template_id@),
        ensures
            r == template_admits_instance(self@, node_template_id@),
    {
        let instances_of_template = self.instances_of_node_template(node_template_id);
        let template = self.template(node_template_id).unwrap();
        proof {
            instances_of_template@.map_values(|s: String| s@).unique_seq_to_set();
        }
        match template.max_instances {
            Some(max_instances) => instances_of_template.len() < max_instances,
            None => true,
        }
    }

    /// A template named `name`, if any.
    pub fn get_node_template_by_name(&self, name: &str) -> (r: Option<NodeTemplate>)
        requires
            self.wf(),
        ensures
            r is None <==> forall|k: Seq<char>| #[trigger]
                self@.templates.dom().contains(k) ==> self@.templates[k].name != name@,
            r matches Some(t) ==> exists|k: Seq<char>| #[trigger]
                self@.templates.dom().contains(k) && self@.templates[k] == t@ && t@.name == name@,
    {
        let list = self.template_list();
        let ghost s = node_template_views(list@);
        let n = list.len();
        let mut i: usize = 0;
        while i < n
            invariant
                n == list@.len(),
                s == node_template_views(list@),
                distinct_keys(s, template_key()),
                keyed(s, template_key()) == self@.templates,
                i <= n,
                forall|j: int| 0 <= j < i ==> (#[trigger] s[j]).name != name@,
            decreases n - i,
        {
            if str_eq(list[i].name.as_str(), name) {
                let t = list[i].clone();
                proof {
                    lemma_keyed_index(s, template_key(), i as int);
                    assert(s[i as int] == list@[i as int]@);
                }
                return Some(t);
            }
            i = i + 1;
        }
        proof {
            assert forall|k: Seq<char>| #[trigger]
                self@.templates.dom().contains(k) implies self@.templates[k].name != name@ by {
                lemma_keyed_dom(s, template_key(), k);
                let j = choose|j: int| 0 <= j < s.len() && (template_key())(s[j]) == k;
                lemma_keyed_index(s, template_key(), j);
            }
        }
        None
    }

    /// The template that `identifier` refers to: by name, a template with
    /// that name; by id, the template with that id.
    pub fn get_node_template_by_identifier(&self, identifier: &TemplateIdentifier) -> (r: Option<
        NodeTemplate,
    >)
        requires
            self.wf(),
        ensures
            r is Some <==> identifies_some(self@, identifier@),
            r matches Some(t) ==> identified_by(self@, identifier@, t@),
    {
        match identifier {
            TemplateIdentifier::Name(name) => {
                let r = self.get_node_template_by_name(name.as_str());
                proof {
                    if r is None {
                        if identifies_some(self@, identifier@) {
                            let k = choose|k: Seq<char>| #[trigger]
                                self@.templates.dom().contains(k) && self@.templates[k].name == name@;
                        }
                    }
                }
                r
            },
            TemplateIdentifier::Id(id) => {
                match self.template(id.as_str()) {
                    Some(t) => Some(t.clone()),
                    None => None,
                }
            },
        }
    }

    /// The connections hosted by node `node_id`, slot by slot; none for an
    /// unknown node.
    pub fn get_node_connections(&self, node_id: &str) -> (r: Vec<Connection>)
        requires
            self.wf(),
        ensures
            crate::model::connection_views(r@) == if self@.instances.dom().contains(node_id@) {
                hosted_connections(self@.instances[node_id@].slots)
            } else {
                Seq::empty()
            },
    {
        match self.instance(node_id) {
            None => {
                let r: Vec<Connection> = Vec::new();
                assert(crate::model::connection_views(r@) =~= Seq::<ConnectionView>::empty());
                r
            },
            Some(instance) => {
                let ghost slots = instance@.slots;
                let mut r: Vec<Connection> = Vec::new();
                let n = instance.slots.len();
                let mut k: usize = 0;
                proof {
                    assert(crate::model::connection_views(r@) =~= hosted_connections(slots.take(0)));
                }
                while k < n
                    invariant
                        n == instance.slots@.len(),
                        slots == instance@.slots,
                        k <= n,
                        crate::model::connection_views(r@) == hosted_connections(slots.take(k as int)),
                    decreases n - k,
                {
                    let conns = &instance.slots[k].connections;
                    let m = conns.len();
                    let mut c: usize = 0;
                    let ghost start = r@;
                    while c < m
                        invariant
                            m == conns@.len(),
                            c <= m,
                            r@ == start + conns@.take(c as int),
                        decreases m - c,
                    {
                        r.push(conns[c].clone());
                        proof {
                            assert(conns@.take(c + 1) =~= conns@.take(c as int).push(conns@[c as int]));
                            assert(r@ =~= start + conns@.take(c + 1));
                        }
                        c = c + 1;
                    }
                    proof {
                        assert(conns@.take(m as int) =~= conns@);
                        assert(slots.take(k + 1).drop_last() =~= slots.take(k as int));
                        assert(slots.take(k + 1).last() == slots[k as int]);
                        assert(slots[k as int].connections == crate::model::connection_views(conns@));
                        assert(crate::model::connection_views(r@) =~= crate::model::connection_views(start) + crate::model::connection_views(conns@));
                    }
                    k = k + 1;
                }
                proof {
                    assert(slots.take(n as int) =~= slots);
                }
                r
            },
        }
    }

    /// Whether every node instance respects the connection bounds of its
    /// slots, slots and slot templates paired by position.
    pub fn is_graph_valid(&self) -> (r: bool)
        requires
            self.wf(),
        ensures
            r == graph_valid(self@),
            forall|id: Seq<char>, k: int|
                self@.instances.dom().contains(id) && self@.templates.dom().contains(self@.instances[id].template_id) && 0
                    <= k < self@.instances[id].slots.len() && k < self@.templates[self@.instances[id].template_id].slot_templates.len()
                    && (#[trigger] self@.instances[id].slots[k]).connections.len()
                    < self@.templates[self@.instances[id].template_id].slot_templates[k].min_connections ==> !r,
            forall|id: Seq<char>, k: int|
                self@.instances.dom().contains(id) && self@.templates.dom().contains(self@.instances[id].template_id) && 0
                    <= k < self@.instances[id].slots.len() && k < self@.templates[self@.instances[id].template_id].slot_templates.len()
                    && self@.templates[self@.instances[id].template_id].slot_templates[k].max_connections is Some
                    && (#[trigger] self@.instances[id].slots[k]).connections.len()
                    > self@.templates[self@.instances[id].template_id].slot_templates[k].max_connections->0 ==> !r,
            (forall|id: Seq<char>, k: int|
                self@.instances.dom().contains(id) && self@.templates.dom().contains(self@.instances[id].template_id) && 0
                    <= k < self@.instances[id].slots.len() && k < self@.templates[self@.instances[id].template_id].slot_templates.len()
                    ==> {
                    let c = (#[trigger] self@.instances[id].slots[k]).connections.len();
                    let st = self@.templates[self@.instances[id].template_id].slot_templates[k];
                    &&& st.min_connections <= c
                    &&& (st.max_connections matches Some(m) ==> c <= m)
                }) ==> r,
    {
        proof {
            lemma_bounds_decide_validity(self@);
        }
        let list = self.instance_list();
        let ghost s = node_instance_views(list@);
        let n = list.len();
        let mut i: usize = 0;
        while i < n
            invariant
                n == list@.len(),
                s == node_instance_views(list@),
                self.wf(),
                distinct_keys(s, instance_key()),
                keyed(s, instance_key()) == self@.instances,
                i <= n,
                forall|j: int|
                    0 <= j < i && self@.templates.dom().contains(#[trigger] s[j].template_id)
                        ==> slots_within_bounds(s[j], self@.templates[s[j].template_id]),
            decreases n - i,
        {
            let instance = &list[i];
            proof {
                assert(s[i as int] == instance@);
            }
            if let Some(template) = self.template(instance.template_id.as_str()) {
                let ns = instance.slots.len();
                let nt = template.slot_templates.len();
                let mut k: usize = 0;
                #[verifier::loop_isolation(false)]
                while k < ns && k < nt
                    invariant
                        ns == instance.slots@.len(),
                        nt == template.slot_templates@.len(),
                        forall|q: int|
                            0 <= q < k && q < instance@.slots.len() && q < template@.slot_templates.len() ==> {
                                &&& (#[trigger] instance@.slots[q]).connections.len()
                                    >= template@.slot_templates[q].min_connections
                                &&& (template@.slot_templates[q].max_connections matches Some(m)
                                    ==> instance@.slots[q].connections.len() <= m)
                            },
                    decreases ns - k,
                {
                    let count = instance.slots[k].connections.len();
                    let st = &template.slot_templates[k];
                    let max = match st.max_connections {
                        Some(m) => m,
                        None => usize::MAX,
                    };
                    proof {
                        assert(instance@.slots[k as int].connections.len() == count);
                        assert(template@.slot_templates[k as int] == st@);
                    }
                    if count < st.min_connections || count > max {
                        proof {
                            lemma_keyed_index(s, instance_key(), i as int);
                            assert(self@.instances.dom().contains(s[i as int].instance_id));
                            assert(!slots_within_bounds(s[i as int], self@.templates[s[i as int].template_id]));
                        }
                        return false;
                    }
                    k = k + 1;
                }
            }
            i = i + 1;
        }
        proof {
            assert forall|id: Seq<char>|
                #[trigger] self@.instances.dom().contains(id) && self@.templates.dom().contains(
                    self@.instances[id].template_id,
                ) implies slots_within_bounds(self@.instances[id], self@.templates[self@.instances[id].template_id]) by {
                lemma_keyed_dom(s, instance_key(), id);
                let j = choose|j: int| 0 <= j < s.len() && (instance_key())(s[j]) == id;
                lemma_keyed_index(s, instance_key(), j);
            }
        }
        true
    }
}

} // verus!
