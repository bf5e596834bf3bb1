//! Building the nodes a graph starts with, then the connections between them.
use vstd::prelude::*;
use vstd::string::*;
use crate::config::{
    initial_node_views, InitialConnection, InitialConnectionView, InitialFieldValue,
    InitialFieldValueView, InitialNode, InitialNodeView,
};
use crate::connect::node_template_of;
use crate::creation::{
    fresh_slots, lemma_fresh_instance_ok, lemma_insert_keeps_slot_templates, make_slots,
    slots_follow_template,
};
use crate::deletion::slots_have_templates;
use crate::errors::GraphResult;
use crate::graph::{view_well_formed, with_slot_connections, Graph, GraphView};
use crate::ids::{generate_id, hyphenated_text};
use crate::model::{
    clone_connections, connection_views, field_instance_views, slot_index, slot_template_by_id,
    slot_template_by_name, slot_template_with_name, slot_with_template_id, Connection,
    ConnectionView, FieldInstance, FieldInstanceView, FieldTemplate, FieldTemplateView,
    NodeInstance, NodeInstanceView, NodeTemplate, NodeTemplateView,
};
use crate::queries::{identified_by, identifies_some};
use crate::seqs::{first_index, lemma_first_index, lemma_first_index_is};

verus! {

pub open spec fn initial_value_for(id: Seq<char>) -> spec_fn(InitialFieldValueView) -> bool {
    |v: InitialFieldValueView| v.field_template_id == id
}

/// The starting value of field template `ft`: the first value `vals` gives
/// for it, else its default.
pub open spec fn initial_value(ft: FieldTemplateView, vals: Seq<InitialFieldValueView>) -> Seq<char> {
    match first_index(vals, initial_value_for(ft.id)) {
        Some(j) => vals[j].value,
        None => ft.default_value,
    }
}

/// One field per field template of `t`, in order, holding its starting value.
pub open spec fn initial_fields(
    t: NodeTemplateView,
    iid: Seq<char>,
    vals: Seq<InitialFieldValueView>,
) -> Seq<FieldInstanceView> {
    Seq::new(
        t.field_templates.len(),
        |k: int|
            FieldInstanceView {
                node_instance_id: iid,
                field_template_id: t.field_templates[k].id,
                value: initial_value(t.field_templates[k], vals),
                can_modify: true,
            },
    )
}

/// The node stored for initial node `node` made from template `t` under id `iid`.
pub open spec fn initial_instance(t: NodeTemplateView, iid: Seq<char>, node: InitialNodeView) -> NodeInstanceView {
    NodeInstanceView {
        instance_id: iid,
        template_id: t.template_id,
        x: node.x,
        y: node.y,
        width: t.default_width,
        height: t.default_height,
        slots: fresh_slots(t, iid),
        fields: initial_fields(t, iid, node.initial_field_values),
        can_delete: node.can_delete,
        can_move: node.can_move,
        can_modify_connections: true,
        can_modify_fields: true,
    }
}

/// Where initial node `node` went: nowhere when its identifier refers to no
/// template; otherwise the id it is stored under (its own id, else a
/// generated one) and a template its identifier refers to.
pub open spec fn placement_ok(
    g: GraphView,
    node: InitialNodeView,
    p: Option<(Seq<char>, NodeTemplateView)>,
) -> bool {
    match p {
        None => !identifies_some(g, node.template_identifier),
        Some((iid, t)) => {
            &&& identified_by(g, node.template_identifier, t)
            &&& match node.id {
                Some(given) => iid == given,
                None => exists|v: u128| iid == hyphenated_text(v),
            }
        },
    }
}

/// `ps` records where each of `nodes` went.
pub open spec fn placements_ok(
    g: GraphView,
    nodes: Seq<InitialNodeView>,
    ps: Seq<Option<(Seq<char>, NodeTemplateView)>>,
) -> bool {
    &&& ps.len() == nodes.len()
    &&& forall|i: int| 0 <= i < nodes.len() ==> placement_ok(g, nodes[i], #[trigger] ps[i])
}

/// The graph after each placed node of `nodes` is stored, in order; a later
/// node replaces an earlier one with the same id.
pub open spec fn place_initial_nodes(
    g: GraphView,
    nodes: Seq<InitialNodeView>,
    ps: Seq<Option<(Seq<char>, NodeTemplateView)>>,
) -> GraphView
    decreases nodes.len(),
{
    if nodes.len() == 0 {
        g
    } else {
        let g1 = place_initial_nodes(g, nodes.drop_last(), ps.drop_last());
        match ps.last() {
            Some((iid, t)) => GraphView {
                instances: g1.instances.insert(iid, initial_instance(t, iid, nodes.last())),
                ..g1
            },
            None => g1,
        }
    }
}

/// Initial node `i` was stored under id `iid`, and no later initial node was
/// stored under the same id.
pub open spec fn last_stored_as(ps: Seq<Option<(Seq<char>, NodeTemplateView)>>, i: int, iid: Seq<char>) -> bool {
    &&& 0 <= i < ps.len()
    &&& ps[i] matches Some((x, _t)) && x == iid
    &&& forall|j: int| i < j < ps.len() ==> !(#[trigger] ps[j] matches Some((x, _t)) && x == iid)
}

/// The connection that initial connection `ic` of node `iid` makes from
/// slot `sid`: it ends at the incoming slot of its target.
pub open spec fn initial_connection_view(iid: Seq<char>, sid: Seq<char>, ic: InitialConnectionView) -> ConnectionView {
    ConnectionView {
        can_delete: ic.can_delete,
        host_node_id: iid,
        host_slot_template_id: sid,
        target_node_id: ic.target_instance_id,
        target_slot_template_id: "incoming"@,
    }
}

/// The graph after initial connection `ic` is added to node `iid`: `None`
/// when its target node is unknown or the node's template has no slot
/// template with the name `ic` gives.
pub open spec fn link_initial(g: GraphView, iid: Seq<char>, ic: InitialConnectionView) -> Option<GraphView> {
    if !g.instances.dom().contains(ic.target_instance_id) {
        None
    } else {
        match slot_template_by_name(node_template_of(g, iid), ic.host_slot_name) {
            None => None,
            Some(st) => {
                let n = g.instances[iid];
                let k = slot_index(n, st.id)->0;
                Some(
                    GraphView {
                        instances: g.instances.insert(
                            iid,
                            with_slot_connections(
                                n,
                                k,
                                n.slots[k].connections.push(initial_connection_view(iid, st.id, ic)),
                            ),
                        ),
                        ..g
                    },
                )
            },
        }
    }
}

/// The graph after the initial connections `cs` of node `iid` are added in
/// order, stopping at the first one that cannot be added.
pub open spec fn link_all(g: GraphView, iid: Seq<char>, cs: Seq<InitialConnectionView>) -> GraphView
    decreases cs.len(),
{
    if cs.len() == 0 {
        g
    } else {
        match link_initial(g, iid, cs[0]) {
            None => g,
            Some(g1) => link_all(g1, iid, cs.drop_first()),
        }
    }
}

/// The graph after the initial connections of each placed node of `nodes`
/// are added, node by node.
pub open spec fn link_initial_nodes(
    g: GraphView,
    nodes: Seq<InitialNodeView>,
    ps: Seq<Option<(Seq<char>, NodeTemplateView)>>,
) -> GraphView
    decreases nodes.len(),
{
    if nodes.len() == 0 {
        g
    } else {
        let g1 = match ps[0] {
            Some((iid, _t)) => link_all(g, iid, nodes[0].initial_connections),
            None => g,
        };
        link_initial_nodes(g1, nodes.drop_first(), ps.drop_first())
    }
}

/// Node `x` exists, its template is registered, and its slots follow it.
pub open spec fn node_ready(g: GraphView, x: Seq<char>) -> bool {
    &&& g.instances.dom().contains(x)
    &&& g.templates.dom().contains(g.instances[x].template_id)
    &&& slots_follow_template(g.instances[x], node_template_of(g, x))
}

/// Every node placed in `ps` is ready.
pub open spec fn placed_ready(g: GraphView, ps: Seq<Option<(Seq<char>, NodeTemplateView)>>) -> bool {
    forall|j: int|
        0 <= j < ps.len() ==> match #[trigger] ps[j] {
            Some((x, _t)) => node_ready(g, x),
            None => true,
        }
}

/// A template an identifier refers to is registered under its own id.
pub proof fn lemma_identified_registered(g: GraphView, id: crate::config::TemplateIdentifierView, t: NodeTemplateView)
    requires
        view_well_formed(g),
        identified_by(g, id, t),
    ensures
        g.templates.dom().contains(t.template_id),
        g.templates[t.template_id] == t,
{
    match id {
        crate::config::TemplateIdentifierView::Name(nm) => {
            let k = choose|k: Seq<char>| #[trigger] g.templates.dom().contains(k) && g.templates[k] == t && t.name == nm;
        },
        crate::config::TemplateIdentifierView::Id(i) => {},
    }
}

/// The starting value of field template `ft` given the values `vals`.
fn initial_value_of(ft: &FieldTemplate, vals: &Vec<InitialFieldValue>) -> (r: String)
    ensures
        r@ == initial_value(ft@, vals@.map_values(|v: InitialFieldValue| v@)),
{
    let ghost vs = vals@.map_values(|v: InitialFieldValue| v@);
    let ghost p = initial_value_for(ft@.id);
    let n = vals.len();
    let mut j: usize = 0;
    while j < n
        invariant
            n == vals@.len(),
            vs == vals@.map_values(|v: InitialFieldValue| v@),
            p == initial_value_for(ft@.id),
            j <= n,
            forall|q: int| 0 <= q < j ==> !p(#[trigger] vs[q]),
        decreases n - j,
    {
        if vals[j].field_template_id == ft.id {
            proof {
                assert(p(vs[j as int]));
                lemma_first_index_is(vs, p, j as int);
            }
            return vals[j].value.clone();
        }
        proof {
            assert(!p(vs[j as int]));
        }
        j = j + 1;
    }
    proof {
        lemma_first_index(vs, p);
    }
    ft.default_value.clone()
}

/// Builds the fields of initial node `node` made from `template`.
fn make_initial_fields(template: &NodeTemplate, instance_id: &String, node: &InitialNode) -> (r: Vec<FieldInstance>)
    ensures
        field_instance_views(r@) == initial_fields(template@, instance_id@, node@.initial_field_values),
{
    let mut r: Vec<FieldInstance> = Vec::new();
    let n = template.field_templates.len();
    let mut k: usize = 0;
    while k < n
        invariant
            n == template.field_templates@.len(),
            k <= n,
            field_instance_views(r@) == initial_fields(template@, instance_id@, node@.initial_field_values).take(k as int),
        decreases n - k,
    {
        let value = initial_value_of(&template.field_templates[k], &node.initial_field_values);
        let field = FieldInstance {
            node_instance_id: instance_id.clone(),
            field_template_id: template.field_templates[k].id.clone(),
            value,
            can_modify: true,
        };
        proof {
            assert(template@.field_templates[k as int] == template.field_templates@[k as int]@);
        }
        let ghost before = r@;
        r.push(field);
        proof {
            assert(field_instance_views(r@) =~= field_instance_views(before).push(field@));
            assert(initial_fields(template@, instance_id@, node@.initial_field_values).take(k + 1)
                =~= initial_fields(template@, instance_id@, node@.initial_field_values).take(k as int).push(field@));
        }
        k = k + 1;
    }
    proof {
        assert(initial_fields(template@, instance_id@, node@.initial_field_values).take(n as int)
            =~= initial_fields(template@, instance_id@, node@.initial_field_values));
    }
    r
}

/// Changing the connections of one slot keeps every node ready and every slot
/// covered by a slot template.
pub proof fn lemma_relink_keeps_ready(g: GraphView, iid: Seq<char>, k: int, cs: Seq<ConnectionView>, x: Seq<char>)
    requires
        g.instances.dom().contains(iid),
        0 <= k < g.instances[iid].slots.len(),
    ensures
        ({
            let g2 = GraphView {
                instances: g.instances.insert(iid, with_slot_connections(g.instances[iid], k, cs)),
                ..g
            };
            &&& node_ready(g, x) ==> node_ready(g2, x)
            &&& slots_have_templates(g) ==> slots_have_templates(g2)
        }),
{
    let n = g.instances[iid];
    let n2 = with_slot_connections(n, k, cs);
    let g2 = GraphView { instances: g.instances.insert(iid, n2), ..g };
    assert forall|q: int| 0 <= q < n2.slots.len() implies (#[trigger] n2.slots[q]).slot_template_id
        == n.slots[q].slot_template_id by {}
    if slots_have_templates(g) {
        assert forall|h: Seq<char>, q: int|
            g2.instances.dom().contains(h) && 0 <= q < g2.instances[h].slots.len() implies slot_template_by_id(
            node_template_of(g2, h),
            (#[trigger] g2.instances[h].slots[q]).slot_template_id,
        ) is Some by {
            if h == iid {
                assert(g.instances[h].slots[q].slot_template_id == g2.instances[h].slots[q].slot_template_id);
            } else {
                assert(g.instances[h].slots[q] == g2.instances[h].slots[q]);
            }
        }
    }
}

impl Graph {
    /// Adds initial connection `ic` to node `iid`, which must be ready;
    /// reports whether it could.
    fn link_one(&mut self, iid: &String, ic: &InitialConnection) -> (linked: bool)
        requires
            old(self).wf(),
            node_ready(old(self)@, iid@),
        ensures
            final(self).wf(),
            linked ==> link_initial(old(self)@, iid@, ic@) == Some(final(self)@),
            !linked ==> link_initial(old(self)@, iid@, ic@) is None && final(self)@ == old(self)@,
            final(self)@.templates == old(self)@.templates,
            forall|x: Seq<char>| node_ready(old(self)@, x) ==> #[trigger] node_ready(final(self)@, x),
            slots_have_templates(old(self)@) ==> slots_have_templates(final(self)@),
    {
        proof {
            self.lemma_wf();
        }
        let ghost g = self@;
        if self.instance(ic.target_instance_id.as_str()).is_none() {
            return false;
        }
        let n = self.instance(iid.as_str()).unwrap();
        let t = self.template(n.template_id.as_str()).unwrap();
        let si = match t.slot_template_index_by_name(ic.host_slot_name.as_str()) {
            Some(si) => si,
            None => {
                return false;
            },
        };
        let sid = t.slot_templates[si].id.clone();
        proof {
            let nv = g.instances[iid@];
            assert(t@.slot_templates[si as int] == t.slot_templates@[si as int]@);
            assert(nv.slots[si as int].slot_template_id == sid@);
            lemma_first_index(nv.slots, slot_with_template_id(sid@));
        }
        let k = n.slot_index(sid.as_str()).unwrap();
        let mut conns = clone_connections(&n.slots[k].connections);
        let ghost before = conns@;
        conns.push(
            Connection {
                can_delete: ic.can_delete,
                host_node_id: iid.clone(),
                host_slot_template_id: sid,
                target_node_id: ic.target_instance_id.clone(),
                target_slot_template_id: String::from_str("incoming"),
            },
        );
        proof {
            let nv = g.instances[iid@];
            assert(crate::graph::slot_well_placed(nv, nv.slots[k as int]));
            assert(n@.slots[k as int] == n.slots@[k as int]@);
            assert forall|c: int| 0 <= c < conns@.len() implies (#[trigger] conns@[c]).host_node_id@ == iid@
                && conns@[c].host_slot_template_id@ == nv.slots[k as int].slot_template_id by {
                if c < before.len() {
                    assert(connection_views(before)[c] == before[c]@);
                }
            }
            assert(connection_views(conns@) =~= nv.slots[k as int].connections.push(
                initial_connection_view(iid@, nv.slots[k as int].slot_template_id, ic@),
            ));
        }
        self.set_slot_connections(iid.as_str(), k, conns);
        proof {
            let nv = g.instances[iid@];
            assert forall|x: Seq<char>| node_ready(g, x) implies #[trigger] node_ready(self@, x) by {
                lemma_relink_keeps_ready(g, iid@, k as int, connection_views(conns@), x);
            }
            lemma_relink_keeps_ready(g, iid@, k as int, connection_views(conns@), iid@);
        }
        true
    }
}

impl Graph {
    /// Adds the initial connections `cs` of ready node `iid` in order,
    /// stopping at the first one that cannot be added.
    fn link_connections(&mut self, iid: &String, cs: &Vec<InitialConnection>)
        requires
            old(self).wf(),
            node_ready(old(self)@, iid@),
        ensures
            final(self).wf(),
            final(self)@ == link_all(old(self)@, iid@, cs@.map_values(|c: InitialConnection| c@)),
            final(self)@.templates == old(self)@.templates,
            forall|x: Seq<char>| node_ready(old(self)@, x) ==> #[trigger] node_ready(final(self)@, x),
            slots_have_templates(old(self)@) ==> slots_have_templates(final(self)@),
    {
        let ghost g0 = self@;
        let ghost cv = cs@.map_values(|c: InitialConnection| c@);
        let n = cs.len();
        let mut j: usize = 0;
        proof {
            assert(cv.skip(0) =~= cv);
        }
        while j < n
            invariant
                self.wf(),
                n == cs@.len(),
                cv == cs@.map_values(|c: InitialConnection| c@),
                g0 == old(self)@,
                self@.templates == g0.templates,
                j <= n,
                node_ready(self@, iid@),
                link_all(g0, iid@, cv) == link_all(self@, iid@, cv.skip(j as int)),
                forall|x: Seq<char>| node_ready(g0, x) ==> #[trigger] node_ready(self@, x),
                slots_have_templates(g0) ==> slots_have_templates(self@),
            decreases n - j,
        {
            let ghost g = self@;
            proof {
                assert(cv.skip(j as int)[0] == cs@[j as int]@);
                assert(cv.skip(j as int).drop_first() =~= cv.skip(j + 1));
            }
            if !self.link_one(iid, &cs[j]) {
                proof {
                    assert(link_all(self@, iid@, cv.skip(j as int)) == self@);
                    assert forall|x: Seq<char>| node_ready(g0, x) implies #[trigger] node_ready(self@, x) by {
                        assert(node_ready(g, x));
                    }
                }
                return;
            }
            j = j + 1;
        }
        proof {
            assert(cv.skip(n as int) =~= Seq::<InitialConnectionView>::empty());
        }
    }

    /// Stores a node for each of `nodes` whose identifier refers to a
    /// template, and returns the id each was stored under.
    fn place_nodes(&mut self, nodes: &Vec<InitialNode>) -> (r: (Vec<Option<String>>, Ghost<Seq<Option<(Seq<char>, NodeTemplateView)>>>))
        requires
            old(self).wf(),
        ensures
            final(self).wf(),
            placements_ok(old(self)@, initial_node_views(nodes@), r.1@),
            final(self)@ == place_initial_nodes(old(self)@, initial_node_views(nodes@), r.1@),
            final(self)@.templates == old(self)@.templates,
            placed_ready(final(self)@, r.1@),
            r.0@.len() == nodes@.len(),
            forall|i: int| 0 <= i < nodes@.len() ==> match #[trigger] r.1@[i] {
                Some((iid, _t)) => r.0@[i] matches Some(s) && s@ == iid,
                None => r.0@[i] is None,
            },
            slots_have_templates(old(self)@) ==> slots_have_templates(final(self)@),
    {
        let ghost g0 = self@;
        let ghost nv = initial_node_views(nodes@);
        let ghost mut ps: Seq<Option<(Seq<char>, NodeTemplateView)>> = Seq::empty();
        proof {
            self.lemma_wf();
        }
        let mut ids: Vec<Option<String>> = Vec::new();
        let n = nodes.len();
        let mut i: usize = 0;
        proof {
            assert(nv.take(0) =~= Seq::<InitialNodeView>::empty());
        }
        while i < n
            invariant
                self.wf(),
                view_well_formed(g0),
                n == nodes@.len(),
                nv == initial_node_views(nodes@),
                i <= n,
                self@.templates == g0.templates,
                ps.len() == i,
                ids@.len() == i,
                forall|q: int| 0 <= q < i ==> placement_ok(g0, nv[q], #[trigger] ps[q]),
                forall|q: int| 0 <= q < i ==> match #[trigger] ps[q] {
                    Some((iid, _t)) => ids@[q] matches Some(s) && s@ == iid,
                    None => ids@[q] is None,
                },
                self@ == place_initial_nodes(g0, nv.take(i as int), ps),
                placed_ready(self@, ps),
                slots_have_templates(g0) ==> slots_have_templates(self@),
            decreases n - i,
        {
            proof {
                self.lemma_wf();
                assert(nv.take(i + 1).drop_last() =~= nv.take(i as int));
                assert(nv[i as int] == nodes@[i as int]@);
            }
            let node = &nodes[i];
            let ghost g = self@;
            let ghost old_ps = ps;
            proof {
                assert(nv.take(i + 1).last() == nv[i as int]);
            }
            match self.get_node_template_by_identifier(&node.template_identifier) {
                None => {
                    ids.push(None);
                    proof {
                        ps = ps.push(None);
                        assert forall|q: int| 0 <= q <= i implies placement_ok(g0, nv[q], #[trigger] ps[q]) by {}
                    }
                },
                Some(template) => {
                    let instance_id = match &node.id {
                        Some(given) => given.clone(),
                        None => generate_id(),
                    };
                    let slots = make_slots(&template, template.template_id.as_str(), &instance_id);
                    let fields = make_initial_fields(&template, &instance_id, node);
                    let instance = NodeInstance {
                        instance_id: instance_id.clone(),
                        template_id: template.template_id.clone(),
                        x: node.x,
                        y: node.y,
                        width: template.default_width,
                        height: template.default_height,
                        slots,
                        fields,
                        can_delete: node.can_delete,
                        can_move: node.can_move,
                        can_modify_connections: true,
                        can_modify_fields: true,
                    };
                    let ghost iv = initial_instance(template@, instance_id@, nv[i as int]);
                    proof {
                        assert(instance@ == iv);
                        lemma_identified_registered(g, node@.template_identifier, template@);
                        lemma_fresh_instance_ok(g, template@, iv);
                    }
                    self.put_instance(instance);
                    ids.push(Some(instance_id));
                    proof {
                        ps = ps.push(Some((instance_id@, template@)));
                        assert forall|q: int| 0 <= q <= i implies placement_ok(g0, nv[q], #[trigger] ps[q]) by {}
                        if slots_have_templates(g0) {
                            lemma_insert_keeps_slot_templates(g, iv, self@);
                        }
                        assert forall|q: int| 0 <= q < ps.len() implies match #[trigger] ps[q] {
                            Some((x, _t)) => node_ready(self@, x),
                            None => true,
                        } by {
                            if q < i {
                                assert(ps[q] == ps.drop_last()[q]);
                            }
                        }
                    }
                },
            }
            proof {
                assert(ps.drop_last() =~= old_ps);
                assert(self@ == place_initial_nodes(g0, nv.take(i + 1), ps));
            }
            i = i + 1;
        }
        proof {
            assert(nv.take(n as int) =~= nv);
        }
        (ids, Ghost(ps))
    }
}

impl Graph {
    /// Sets up the nodes a graph starts with: stores a node for each initial
    /// node whose identifier refers to a template (skipping the others), with
    /// its own id or a generated one, its fields at the given or default
    /// values; then, node by node, adds its initial connections from the
    /// named slot to the incoming slot of the target, stopping at the first
    /// connection whose target or slot is unknown. Locks are not consulted
    /// and the result is always `Ok`.
    pub fn create_initial_nodes(&mut self, initial_nodes: &Vec<InitialNode>) -> (r: GraphResult<()>)
        requires
            old(self).wf(),
        ensures
            final(self).wf(),
            r is Ok,
            final(self)@.templates == old(self)@.templates,
            slots_have_templates(old(self)@) ==> slots_have_templates(final(self)@),
            exists|ps: Seq<Option<(Seq<char>, NodeTemplateView)>>|
                #[trigger] placements_ok(old(self)@, initial_node_views(initial_nodes@), ps)
                    && placed_ready(final(self)@, ps)
                    && final(self)@ == link_initial_nodes(
                    place_initial_nodes(old(self)@, initial_node_views(initial_nodes@), ps),
                    initial_node_views(initial_nodes@),
                    ps,
                ) && forall|i: int, iid: Seq<char>| #[trigger] last_stored_as(ps, i, iid) ==> {
                    &&& final(self)@.instances.dom().contains(iid)
                    &&& final(self)@.instances[iid].x == initial_nodes@[i].x
                    &&& final(self)@.instances[iid].y == initial_nodes@[i].y
                    &&& final(self)@.instances[iid].can_delete == initial_nodes@[i].can_delete
                    &&& final(self)@.instances[iid].can_move == initial_nodes@[i].can_move
                    &&& final(self)@.instances[iid].template_id == (ps[i]->0).1.template_id
                    &&& final(self)@.instances[iid].width == (ps[i]->0).1.default_width
                    &&& final(self)@.instances[iid].height == (ps[i]->0).1.default_height
                },
    {
        let ghost g0 = self@;
        let ghost nv = initial_node_views(initial_nodes@);
        let (ids, Ghost(ps)) = self.place_nodes(initial_nodes);
        let ghost g1 = self@;
        let n = ids.len();
        let mut i: usize = 0;
        proof {
            assert(nv.skip(0) =~= nv);
            assert(ps.skip(0) =~= ps);
        }
        while i < n
            invariant
                self.wf(),
                n == ids@.len(),
                n == nv.len(),
                ps.len() == n,
                i <= n,
                nv == initial_node_views(initial_nodes@),
                forall|q: int| 0 <= q < n ==> match #[trigger] ps[q] {
                    Some((iid, _t)) => ids@[q] matches Some(s) && s@ == iid,
                    None => ids@[q] is None,
                },
                placed_ready(self@, ps),
                link_initial_nodes(g1, nv, ps) == link_initial_nodes(self@, nv.skip(i as int), ps.skip(i as int)),
                self@.templates == g0.templates,
                slots_have_templates(g0) ==> slots_have_templates(self@),
            decreases n - i,
        {
            proof {
                assert(nv.skip(i as int).drop_first() =~= nv.skip(i + 1));
                assert(ps.skip(i as int).drop_first() =~= ps.skip(i + 1));
                assert(nv.skip(i as int)[0] == nv[i as int]);
                assert(ps.skip(i as int)[0] == ps[i as int]);
                assert(nv[i as int] == initial_nodes@[i as int]@);
            }
            match &ids[i] {
                Some(iid) => {
                    proof {
                        assert(match ps[i as int] {
                            Some((x, _t)) => node_ready(self@, x),
                            None => true,
                        });
                    }
                    self.link_connections(iid, &initial_nodes[i].initial_connections);
                },
                None => {},
            }
            i = i + 1;
        }
        proof {
            assert(nv.skip(n as int) =~= Seq::<InitialNodeView>::empty());
            assert(placements_ok(g0, nv, ps));
            assert(placed_ready(self@, ps));
            assert forall|i: int, iid: Seq<char>| #[trigger] last_stored_as(ps, i, iid) implies {
                &&& self@.instances.dom().contains(iid)
                &&& self@.instances[iid].x == initial_nodes@[i].x
                &&& self@.instances[iid].y == initial_nodes@[i].y
                &&& self@.instances[iid].can_delete == initial_nodes@[i].can_delete
                &&& self@.instances[iid].can_move == initial_nodes@[i].can_move
                &&& self@.instances[iid].template_id == (ps[i]->0).1.template_id
                &&& self@.instances[iid].width == (ps[i]->0).1.default_width
                &&& self@.instances[iid].height == (ps[i]->0).1.default_height
            } by {
                crate::laws::law_initial_nodes_keep_their_settings(g0, nv, ps, i, iid);
                assert(nv[i] == initial_nodes@[i]@);
            }
        }
        Ok(())
    }
}

} // verus!
