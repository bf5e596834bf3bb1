//! The graph: node templates and node instances keyed by id, and the
//! operations that create, connect, and delete them under the templates'
//! rules.
use vstd::prelude::*;
use vstd::string::*;
use crate::errors::{GraphError, GraphResult};
use crate::model::{
    Connection, ConnectionView, FieldInstance, FieldInstanceView, connection_views, field_instance_views, slot_instance_views, FieldTemplate, NodeInstance, NodeInstanceView, NodeTemplate,
    NodeTemplateView, SlotInstance, SlotInstanceView, SlotTemplate, SlotTemplateView, slot_index,
    slot_with_template_id,
};
use crate::seqs::{
    distinct_keys, first_index, keyed, lemma_first_index, lemma_first_index_is, lemma_distinct_push, lemma_distinct_remove,
    lemma_distinct_update, lemma_keyed_absent, lemma_keyed_dom, lemma_keyed_index, lemma_keyed_remove,
    lemma_keyed_update,
};
use crate::text::str_eq;

verus! {

pub open spec fn template_key() -> spec_fn(NodeTemplateView) -> Seq<char> {
    |t: NodeTemplateView| t.template_id
}

pub open spec fn instance_key() -> spec_fn(NodeInstanceView) -> Seq<char> {
    |n: NodeInstanceView| n.instance_id
}

pub open spec fn node_template_views(s: Seq<NodeTemplate>) -> Seq<NodeTemplateView> {
    s.map_values(|t: NodeTemplate| t@)
}

pub open spec fn node_instance_views(s: Seq<NodeInstance>) -> Seq<NodeInstanceView> {
    s.map_values(|n: NodeInstance| n@)
}

/// The graph as two maps: node templates by template id, node instances by
/// instance id.
pub struct GraphView {
    pub templates: Map<Seq<char>, NodeTemplateView>,
    pub instances: Map<Seq<char>, NodeInstanceView>,
}

/// A slot belongs to its node: it names the node and the node's template,
/// and every connection it hosts starts at this node and this slot.
pub open spec fn slot_well_placed(n: NodeInstanceView, s: SlotInstanceView) -> bool {
    &&& s.node_instance_id == n.instance_id
    &&& s.node_template_id == n.template_id
    &&& forall|c: int|
        0 <= c < s.connections.len() ==> (#[trigger] s.connections[c]).host_node_id
            == n.instance_id && s.connections[c].host_slot_template_id == s.slot_template_id
}

/// A node instance refers to a registered template, its slots belong to it,
/// and only the first slot made from a slot template hosts connections.
pub open spec fn instance_well_formed(g: GraphView, n: NodeInstanceView) -> bool {
    &&& g.templates.dom().contains(n.template_id)
    &&& forall|k: int| 0 <= k < n.slots.len() ==> slot_well_placed(n, #[trigger] n.slots[k])
    &&& forall|k: int|
        0 <= k < n.slots.len() && (#[trigger] n.slots[k]).connections.len() > 0 ==> slot_index(
            n,
            n.slots[k].slot_template_id,
        ) == Some(k)
}

/// Every entry is stored under its own id and every node instance is well formed.
pub open spec fn view_well_formed(g: GraphView) -> bool {
    &&& g.templates.dom().finite()
    &&& g.instances.dom().finite()
    &&& forall|id: Seq<char>| #[trigger]
        g.templates.dom().contains(id) ==> g.templates[id].template_id == id
    &&& forall|id: Seq<char>| #[trigger]
        g.instances.dom().contains(id) ==> g.instances[id].instance_id == id && instance_well_formed(
            g,
            g.instances[id],
        )
}

/// `n` with the connections of its slot `k` replaced by `cs`.
pub open spec fn with_slot_connections(
    n: NodeInstanceView,
    k: int,
    cs: Seq<ConnectionView>,
) -> NodeInstanceView {
    NodeInstanceView { slots: n.slots.update(k, SlotInstanceView { connections: cs, ..n.slots[k] }), ..n }
}

/// `n` with the value of its field `f` replaced by `v`.
pub open spec fn with_field_value(n: NodeInstanceView, f: int, v: Seq<char>) -> NodeInstanceView {
    NodeInstanceView { fields: n.fields.update(f, FieldInstanceView { value: v, ..n.fields[f] }), ..n }
}

/// Two instances whose slots carry the same slot template ids, slot by slot,
/// find the same first slot for every id.
pub proof fn lemma_slot_index_same_ids(a: NodeInstanceView, b: NodeInstanceView, id: Seq<char>)
    requires
        a.slots.len() == b.slots.len(),
        forall|k: int| 0 <= k < a.slots.len() ==> (#[trigger] a.slots[k]).slot_template_id == b.slots[k].slot_template_id,
    ensures
        slot_index(a, id) == slot_index(b, id),
{
    let p = slot_with_template_id(id);
    lemma_first_index(a.slots, p);
    lemma_first_index(b.slots, p);
    match slot_index(a, id) {
        Some(i) => {
            assert(p(b.slots[i]));
            assert forall|j: int| 0 <= j < i implies !p(#[trigger] b.slots[j]) by {
                assert(!p(a.slots[j]));
            }
            lemma_first_index_is(b.slots, p, i);
        },
        None => {
            assert forall|j: int| 0 <= j < b.slots.len() implies !p(#[trigger] b.slots[j]) by {
                assert(!p(a.slots[j]));
            }
        },
    }
}

/// Node templates and node instances, each kept once per id.
#[derive(Debug)]
pub struct Graph {
    pub(crate) node_templates: Vec<NodeTemplate>,
    pub(crate) node_instances: Vec<NodeInstance>,
}

impl View for Graph {
    type V = GraphView;

    closed spec fn view(&self) -> GraphView {
        GraphView {
            templates: keyed(node_template_views(self.node_templates@), template_key()),
            instances: keyed(node_instance_views(self.node_instances@), instance_key()),
        }
    }
}

pub proof fn lemma_keyed_finite<V>(s: Seq<V>, key: spec_fn(V) -> Seq<char>)
    ensures
        keyed(s, key).dom().finite(),
    decreases s.len(),
{
    if s.len() > 0 {
        lemma_keyed_finite(s.drop_last(), key);
    }
}

impl Graph {
    /// The representation invariant: ids are unique and the view is well formed.
    pub closed spec fn wf(&self) -> bool {
        &&& distinct_keys(node_template_views(self.node_templates@), template_key())
        &&& distinct_keys(node_instance_views(self.node_instances@), instance_key())
        &&& view_well_formed(self@)
    }

    /// An empty graph.
    pub fn new() -> (g: Self)
        ensures
            g.wf(),
            g@.templates == Map::<Seq<char>, NodeTemplateView>::empty(),
            g@.instances == Map::<Seq<char>, NodeInstanceView>::empty(),
    {
        let g = Graph { node_templates: Vec::new(), node_instances: Vec::new() };
        assert(node_template_views(g.node_templates@) =~= Seq::empty());
        assert(node_instance_views(g.node_instances@) =~= Seq::empty());
        g
    }

    proof fn lemma_template_at(&self, i: int)
        requires
            self.wf(),
            0 <= i < self.node_templates@.len(),
        ensures
            self@.templates.dom().contains(self.node_templates@[i].template_id@),
            self@.templates[self.node_templates@[i].template_id@] == self.node_templates@[i]@,
    {
        let s = node_template_views(self.node_templates@);
        lemma_keyed_index(s, template_key(), i);
    }

    proof fn lemma_instance_at(&self, i: int)
        requires
            self.wf(),
            0 <= i < self.node_instances@.len(),
        ensures
            self@.instances.dom().contains(self.node_instances@[i].instance_id@),
            self@.instances[self.node_instances@[i].instance_id@] == self.node_instances@[i]@,
    {
        let s = node_instance_views(self.node_instances@);
        lemma_keyed_index(s, instance_key(), i);
    }

    /// Where the template with id `id` is stored.
    pub(crate) fn template_index(&self, id: &str) -> (r: Option<usize>)
        requires
            self.wf(),
        ensures
            match r {
                Some(i) => {
                    &&& i < self.node_templates@.len()
                    &&& self.node_templates@[i as int].template_id@ == id@
                    &&& self@.templates.dom().contains(id@)
                    &&& self@.templates[id@] == self.node_templates@[i as int]@
                },
                None => !self@.templates.dom().contains(id@),
            },
    {
        let n = self.node_templates.len();
        let mut i: usize = 0;
        while i < n
            invariant
                self.wf(),
                n == self.node_templates@.len(),
                i <= n,
                forall|j: int| 0 <= j < i ==> self.node_templates@[j].template_id@ != id@,
            decreases n - i,
        {
            if str_eq(self.node_templates[i].template_id.as_str(), id) {
                proof {
                    self.lemma_template_at(i as int);
                }
                return Some(i);
            }
            i = i + 1;
        }
        proof {
            let s = node_template_views(self.node_templates@);
            assert forall|j: int| 0 <= j < s.len() implies (template_key())(#[trigger] s[j]) != id@ by {
                assert(s[j] == self.node_templates@[j]@);
            }
            lemma_keyed_absent(s, template_key(), id@);
        }
        None
    }

    /// Where the node instance with id `id` is stored.
    pub(crate) fn instance_index(&self, id: &str) -> (r: Option<usize>)
        requires
            self.wf(),
        ensures
            match r {
                Some(i) => {
                    &&& i < self.node_instances@.len()
                    &&& self.node_instances@[i as int].instance_id@ == id@
                    &&& self@.instances.dom().contains(id@)
                    &&& self@.instances[id@] == self.node_instances@[i as int]@
                },
                None => !self@.instances.dom().contains(id@),
            },
    {
        let n = self.node_instances.len();
        let mut i: usize = 0;
        while i < n
            invariant
                self.wf(),
                n == self.node_instances@.len(),
                i <= n,
                forall|j: int| 0 <= j < i ==> self.node_instances@[j].instance_id@ != id@,
            decreases n - i,
        {
            if str_eq(self.node_instances[i].instance_id.as_str(), id) {
                proof {
                    self.lemma_instance_at(i as int);
                }
                return Some(i);
            }
            i = i + 1;
        }
        proof {
            let s = node_instance_views(self.node_instances@);
            assert forall|j: int| 0 <= j < s.len() implies (instance_key())(#[trigger] s[j]) != id@ by {
                assert(s[j] == self.node_instances@[j]@);
            }
            lemma_keyed_absent(s, instance_key(), id@);
        }
        None
    }

    /// The well-formedness facts that callers may use.
    pub proof fn lemma_wf(&self)
        requires
            self.wf(),
        ensures
            view_well_formed(self@),
    {
    }

    /// The stored node templates; they carry distinct ids and make up the
    /// template map.
    pub fn template_list(&self) -> (r: &Vec<NodeTemplate>)
        requires
            self.wf(),
        ensures
            distinct_keys(node_template_views(r@), template_key()),
            keyed(node_template_views(r@), template_key()) == self@.templates,
    {
        &self.node_templates
    }

    /// The stored node instances; they carry distinct ids and make up the
    /// instance map.
    pub fn instance_list(&self) -> (r: &Vec<NodeInstance>)
        requires
            self.wf(),
        ensures
            distinct_keys(node_instance_views(r@), instance_key()),
            keyed(node_instance_views(r@), instance_key()) == self@.instances,
    {
        &self.node_instances
    }

    /// The template with id `id`.
    pub(crate) fn template(&self, id: &str) -> (r: Option<&NodeTemplate>)
        requires
            self.wf(),
        ensures
            r is Some <==> self@.templates.dom().contains(id@),
            r matches Some(t) ==> t@ == self@.templates[id@],
    {
        match self.template_index(id) {
            Some(i) => Some(&self.node_templates[i]),
            None => None,
        }
    }

    /// The node instance with id `id`.
    pub(crate) fn instance(&self, id: &str) -> (r: Option<&NodeInstance>)
        requires
            self.wf(),
        ensures
            r is Some <==> self@.instances.dom().contains(id@),
            r matches Some(n) ==> n@ == self@.instances[id@],
    {
        match self.instance_index(id) {
            Some(i) => Some(&self.node_instances[i]),
            None => None,
        }
    }

    /// Stores `t` under its id, replacing any template with that id.
    pub(crate) fn put_template(&mut self, t: NodeTemplate)
        requires
            old(self).wf(),
        ensures
            final(self).wf(),
            final(self)@.templates == old(self)@.templates.insert(t.template_id@, t@),
            final(self)@.instances == old(self)@.instances,
    {
        let ghost old_view = self@;
        let ghost tv = t@;
        proof {
            lemma_keyed_finite(node_template_views(self.node_templates@), template_key());
        }
        match self.template_index(t.template_id.as_str()) {
            Some(i) => {
                let ghost s = node_template_views(self.node_templates@);
                self.node_templates.set(i, t);
                proof {
                    assert(node_template_views(self.node_templates@) =~= s.update(i as int, tv));
                    lemma_distinct_update(s, template_key(), i as int, tv);
                    lemma_keyed_update(s, template_key(), i as int, tv);
                }
            },
            None => {
                let ghost s = node_template_views(self.node_templates@);
                proof {
                    assert forall|j: int| 0 <= j < s.len() implies (template_key())(#[trigger] s[j])
                        != (template_key())(tv) by {
                        lemma_keyed_dom(s, template_key(), tv.template_id);
                    }
                    lemma_distinct_push(s, template_key(), tv);
                }
                self.node_templates.push(t);
                proof {
                    assert(node_template_views(self.node_templates@) =~= s.push(tv));
                    assert(s.push(tv).drop_last() =~= s);
                }
            },
        }
        proof {
            lemma_keyed_finite(node_template_views(self.node_templates@), template_key());
            assert(self@.templates == old_view.templates.insert(tv.template_id, tv));
            assert forall|id: Seq<char>| #[trigger]
                self@.instances.dom().contains(id) implies self@.instances[id].instance_id == id
                && instance_well_formed(self@, self@.instances[id]) by {
                assert(old_view.instances.dom().contains(id));
            }
        }
    }

    /// Stores `n` under its id, replacing any node instance with that id.
    pub(crate) fn put_instance(&mut self, n: NodeInstance)
        requires
            old(self).wf(),
            instance_well_formed(old(self)@, n@),
        ensures
            final(self).wf(),
            final(self)@.templates == old(self)@.templates,
            final(self)@.instances == old(self)@.instances.insert(n.instance_id@, n@),
    {
        let ghost old_view = self@;
        let ghost nv = n@;
        match self.instance_index(n.instance_id.as_str()) {
            Some(i) => {
                let ghost s = node_instance_views(self.node_instances@);
                self.node_instances.set(i, n);
                proof {
                    assert(node_instance_views(self.node_instances@) =~= s.update(i as int, nv));
                    lemma_distinct_update(s, instance_key(), i as int, nv);
                    lemma_keyed_update(s, instance_key(), i as int, nv);
                }
            },
            None => {
                let ghost s = node_instance_views(self.node_instances@);
                proof {
                    assert forall|j: int| 0 <= j < s.len() implies (instance_key())(#[trigger] s[j])
                        != (instance_key())(nv) by {
                        lemma_keyed_dom(s, instance_key(), nv.instance_id);
                    }
                    lemma_distinct_push(s, instance_key(), nv);
                }
                self.node_instances.push(n);
                proof {
                    assert(node_instance_views(self.node_instances@) =~= s.push(nv));
                    assert(s.push(nv).drop_last() =~= s);
                }
            },
        }
        proof {
            lemma_keyed_finite(node_instance_views(self.node_instances@), instance_key());
            assert(self@.instances == old_view.instances.insert(nv.instance_id, nv));
        }
    }

    /// Removes the node instance with id `id`, if there is one.
    pub(crate) fn remove_instance(&mut self, id: &str)
        requires
            old(self).wf(),
        ensures
            final(self).wf(),
            final(self)@.templates == old(self)@.templates,
            final(self)@.instances == old(self)@.instances.remove(id@),
    {
        let ghost old_view = self@;
        match self.instance_index(id) {
            Some(i) => {
                let ghost s = node_instance_views(self.node_instances@);
                self.node_instances.remove(i);
                proof {
                    assert(node_instance_views(self.node_instances@) =~= s.remove(i as int));
                    lemma_distinct_remove(s, instance_key(), i as int);
                    lemma_keyed_remove(s, instance_key(), i as int);
                    lemma_keyed_finite(node_instance_views(self.node_instances@), instance_key());
                }
            },
            None => {
                assert(old_view.instances.remove(id@) =~= old_view.instances);
            },
        }
    }

    /// Replaces the connections of slot `k` of node `id`.
    pub(crate) fn set_slot_connections(&mut self, id: &str, k: usize, conns: Vec<Connection>)
        requires
            old(self).wf(),
            old(self)@.instances.dom().contains(id@),
            k < old(self)@.instances[id@].slots.len(),
            forall|c: int|
                0 <= c < conns@.len() ==> (#[trigger] conns@[c]).host_node_id@ == id@
                    && conns@[c].host_slot_template_id@ == old(self)@.instances[id@].slots[k as int].slot_template_id,
            conns@.len() > 0 ==> slot_index(
                old(self)@.instances[id@],
                old(self)@.instances[id@].slots[k as int].slot_template_id,
            ) == Some(k as int),
        ensures
            final(self).wf(),
            final(self)@.templates == old(self)@.templates,
            final(self)@.instances == old(self)@.instances.insert(
                id@,
                with_slot_connections(old(self)@.instances[id@], k as int, connection_views(conns@)),
            ),
    {
        let ghost old_view = self@;
        let i = self.instance_index(id).unwrap();
        let ghost s = node_instance_views(self.node_instances@);
        let ghost nv = with_slot_connections(s[i as int], k as int, connection_views(conns@));
        self.node_instances[i].slots[k].connections = conns;
        proof {
            assert(slot_instance_views(self.node_instances@[i as int].slots@) =~= nv.slots);
            assert(self.node_instances@[i as int]@ == nv);
            assert(node_instance_views(self.node_instances@) =~= s.update(i as int, nv));
            lemma_distinct_update(s, instance_key(), i as int, nv);
            lemma_keyed_update(s, instance_key(), i as int, nv);
            lemma_keyed_finite(node_instance_views(self.node_instances@), instance_key());
            let nn = s[i as int];
            assert(instance_well_formed(self@, nv)) by {
                assert forall|j: int| 0 <= j < nv.slots.len() implies slot_well_placed(nv, #[trigger] nv.slots[j]) by {
                    assert(slot_well_placed(nn, nn.slots[j]));
                }
                assert(nv.slots.map_values(|x: SlotInstanceView| x.slot_template_id) =~= nn.slots.map_values(|x: SlotInstanceView| x.slot_template_id));
                assert forall|q: int| 0 <= q < nv.slots.len() && (#[trigger] nv.slots[q]).connections.len() > 0
                    implies slot_index(nv, nv.slots[q].slot_template_id) == Some(q) by {
                    lemma_slot_index_same_ids(nn, nv, nv.slots[q].slot_template_id);
                }
            }
        }
    }

    /// Replaces the value of field `f` of node `id`.
    pub(crate) fn set_field_value(&mut self, id: &str, f: usize, value: String)
        requires
            old(self).wf(),
            old(self)@.instances.dom().contains(id@),
            f < old(self)@.instances[id@].fields.len(),
        ensures
            final(self).wf(),
            final(self)@.templates == old(self)@.templates,
            final(self)@.instances == old(self)@.instances.insert(
                id@,
                with_field_value(old(self)@.instances[id@], f as int, value@),
            ),
    {
        let ghost old_view = self@;
        let i = self.instance_index(id).unwrap();
        let ghost s = node_instance_views(self.node_instances@);
        let ghost nv = with_field_value(s[i as int], f as int, value@);
        self.node_instances[i].fields[f].value = value;
        proof {
            assert(field_instance_views(self.node_instances@[i as int].fields@) =~= nv.fields);
            assert(self.node_instances@[i as int]@ == nv);
            assert(node_instance_views(self.node_instances@) =~= s.update(i as int, nv));
            lemma_distinct_update(s, instance_key(), i as int, nv);
            lemma_keyed_update(s, instance_key(), i as int, nv);
            lemma_keyed_finite(node_instance_views(self.node_instances@), instance_key());
            let nn = s[i as int];
            assert(instance_well_formed(self@, nv)) by {
                assert forall|j: int| 0 <= j < nv.slots.len() implies slot_well_placed(nv, #[trigger] nv.slots[j]) by {
                    assert(slot_well_placed(nn, nn.slots[j]));
                }
                assert(nv.slots == nn.slots);
            }
        }
    }
}

impl Clone for Graph {
    /// A copy with the same templates and instances.
    fn clone(&self) -> (r: Self)
        ensures
            r@ == self@,
            self.wf() ==> r.wf(),
    {
        let node_templates = self.node_templates.clone();
        let node_instances = self.node_instances.clone();
        assert(node_template_views(node_templates@) =~= node_template_views(self.node_templates@));
        assert(node_instance_views(node_instances@) =~= node_instance_views(self.node_instances@));
        Graph { node_templates, node_instances }
    }
}

impl Default for Graph {
    /// An empty graph.
    fn default() -> (g: Self)
        ensures
            g.wf(),
            g@.templates == Map::<Seq<char>, NodeTemplateView>::empty(),
            g@.instances == Map::<Seq<char>, NodeInstanceView>::empty(),
    {
        Graph::new()
    }
}

/// `n` placed at (`x`, `y`).
pub open spec fn moved_to(n: NodeInstanceView, x: u64, y: u64) -> NodeInstanceView {
    NodeInstanceView { x, y, ..n }
}

impl Graph {
    /// Places node `id` at (`x`, `y`), given as bit patterns; does nothing
    /// when there is no such node.
    pub fn set_node_position(&mut self, id: &str, x: u64, y: u64)
        requires
            old(self).wf(),
        ensures
            final(self).wf(),
            final(self)@.templates == old(self)@.templates,
            old(self)@.instances.dom().contains(id@) ==> final(self)@.instances == old(self)@.instances.insert(
                id@,
                moved_to(old(self)@.instances[id@], x, y),
            ),
            !old(self)@.instances.dom().contains(id@) ==> final(self)@ == old(self)@,
    {
        let i = match self.instance_index(id) {
            Some(i) => i,
            None => {
                return;
            },
        };
        let ghost s = node_instance_views(self.node_instances@);
        let ghost nv = moved_to(s[i as int], x, y);
        self.node_instances[i].x = x;
        self.node_instances[i].y = y;
        proof {
            assert(self.node_instances@[i as int]@ == nv);
            assert(node_instance_views(self.node_instances@) =~= s.update(i as int, nv));
            lemma_distinct_update(s, instance_key(), i as int, nv);
            lemma_keyed_update(s, instance_key(), i as int, nv);
            lemma_keyed_finite(node_instance_views(self.node_instances@), instance_key());
            let nn = s[i as int];
            assert(instance_well_formed(self@, nv)) by {
                assert forall|j: int| 0 <= j < nv.slots.len() implies slot_well_placed(nv, #[trigger] nv.slots[j]) by {
                    assert(slot_well_placed(nn, nn.slots[j]));
                }
            }
        }
    }
}

} // verus!
