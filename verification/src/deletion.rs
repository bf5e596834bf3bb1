//! Deleting the connections that end at a node, the connections of a slot,
//! and whole nodes.
use vstd::prelude::*;
use vstd::string::*;
use crate::connect::{
    connection_deletable, delete_connection_post, lemma_retained_subset, node_template_of,
    retained_connections, slot_known, slot_modifiable, slot_template_of, node_modifiable,
};
use crate::errors::{GraphError, GraphResult};
use crate::graph::{
    instance_key, instance_well_formed, lemma_slot_index_same_ids, node_instance_views,
    slot_well_placed, view_well_formed, with_slot_connections, Graph, GraphView,
};
use crate::model::{
    connection_views, slot_index, slot_template_by_id, slot_with_template_id, Connection,
    ConnectionView, NodeInstanceView, SlotInstanceView,
};
use crate::prune::{
    keep_where, lemma_keep_where_empty, lemma_keep_where_ext, lemma_prune_instance_ext,
    lemma_retained_of_kept, prune, prune_instance,
};
use crate::seqs::{distinct_keys, keyed, lemma_first_index, lemma_keyed_dom, lemma_keyed_index};
use crate::text::str_eq;

verus! {

broadcast use vstd::seq_lib::group_seq_properties;

/// Every slot of every node has its slot template in the node's template.
pub open spec fn slots_have_templates(g: GraphView) -> bool {
    forall|h: Seq<char>, k: int|
        #![trigger g.instances[h].slots[k]]
        g.instances.dom().contains(h) && 0 <= k < g.instances[h].slots.len() ==> slot_template_by_id(
            node_template_of(g, h),
            g.instances[h].slots[k].slot_template_id,
        ) is Some
}

/// Every slot that holds a connection ending at node `tn` has its slot
/// template in its node's template.
pub open spec fn incoming_hosts_known(g: GraphView, tn: Seq<char>) -> bool {
    forall|h: Seq<char>, k: int, i: int|
        g.instances.dom().contains(h) && 0 <= k < g.instances[h].slots.len() && 0 <= i
            < g.instances[h].slots[k].connections.len()
            && (#[trigger] g.instances[h].slots[k].connections[i]).target_node_id == tn
            ==> slot_template_by_id(node_template_of(g, h), g.instances[h].slots[k].slot_template_id) is Some
}

/// Slots that all have their templates include those that hold connections
/// to any node.
pub proof fn lemma_slots_have_templates_incoming(g: GraphView, tn: Seq<char>)
    requires
        slots_have_templates(g),
    ensures
        incoming_hosts_known(g, tn),
{
    assert forall|h: Seq<char>, k: int, i: int|
        g.instances.dom().contains(h) && 0 <= k < g.instances[h].slots.len() && 0 <= i
            < g.instances[h].slots[k].connections.len()
            && (#[trigger] g.instances[h].slots[k].connections[i]).target_node_id == tn
            implies slot_template_by_id(node_template_of(g, h), g.instances[h].slots[k].slot_template_id) is Some by {
        assert(g.instances[h].slots[k] == g.instances[h].slots[k]);
    }
}

/// Pruning keeps the slots that hold connections to `tn` covered.
pub proof fn lemma_prune_keeps_incoming_hosts(g: GraphView, d: spec_fn(Seq<char>, Seq<char>, ConnectionView) -> bool, tn: Seq<char>)
    requires
        incoming_hosts_known(g, tn),
    ensures
        incoming_hosts_known(prune(g, d), tn),
{
    let p = prune(g, d);
    assert forall|h: Seq<char>, k: int, i: int|
        p.instances.dom().contains(h) && 0 <= k < p.instances[h].slots.len() && 0 <= i
            < p.instances[h].slots[k].connections.len()
            && (#[trigger] p.instances[h].slots[k].connections[i]).target_node_id == tn
            implies slot_template_by_id(node_template_of(p, h), p.instances[h].slots[k].slot_template_id) is Some by {
        lemma_prune_shape(g, d, h);
        crate::prune::lemma_prune_subset(g, d, h, k, i);
        let y = p.instances[h].slots[k].connections[i];
        let j = choose|j: int| 0 <= j < g.instances[h].slots[k].connections.len() && g.instances[h].slots[k].connections[j] == y;
        assert(g.instances[h].slots[k].connections[j].target_node_id == tn);
    }
}

/// Connection `c` is hosted by some slot of the graph.
pub open spec fn hosted_in(g: GraphView, c: ConnectionView) -> bool {
    exists|h: Seq<char>, k: int, i: int|
        g.instances.dom().contains(h) && 0 <= k < g.instances[h].slots.len() && 0 <= i
            < g.instances[h].slots[k].connections.len() && #[trigger] g.instances[h].slots[k].connections[i]
            == c
}

/// Every connection that ends at node `tn` may be deleted.
pub open spec fn all_incoming_deletable(g: GraphView, tn: Seq<char>) -> bool {
    forall|h: Seq<char>, k: int, i: int|
        g.instances.dom().contains(h) && 0 <= k < g.instances[h].slots.len() && 0 <= i
            < g.instances[h].slots[k].connections.len()
            && (#[trigger] g.instances[h].slots[k].connections[i]).target_node_id == tn
            ==> connection_deletable(g, g.instances[h].slots[k].connections[i])
}

/// No connection ends at node `tn`.
pub open spec fn no_incoming(g: GraphView, tn: Seq<char>) -> bool {
    forall|h: Seq<char>, k: int, i: int|
        g.instances.dom().contains(h) && 0 <= k < g.instances[h].slots.len() && 0 <= i
            < g.instances[h].slots[k].connections.len() ==> (
        #[trigger] g.instances[h].slots[k].connections[i]).target_node_id != tn
}

/// The connections that removing the connections to node `tn` takes away:
/// those in slot `s` of node `h` that end at `tn` on a slot at which some
/// deletable connection of that slot also ends.
pub open spec fn incoming_drop(g: GraphView, tn: Seq<char>) -> spec_fn(Seq<char>, Seq<char>, ConnectionView) -> bool {
    |h: Seq<char>, s: Seq<char>, x: ConnectionView|
        x.target_node_id == tn && g.instances.dom().contains(h) && match slot_index(
            g.instances[h],
            s,
        ) {
            Some(k) => exists|j: int|
                0 <= j < g.instances[h].slots[k].connections.len() && ({
                    let y = #[trigger] g.instances[h].slots[k].connections[j];
                    &&& y.target_node_id == tn
                    &&& y.target_slot_template_id == x.target_slot_template_id
                    &&& connection_deletable(g, y)
                }),
            None => false,
        }
}

/// What `remove_all_incoming_connections` does.
pub open spec fn remove_incoming_post(old: GraphView, new: GraphView, tn: Seq<char>, r: GraphResult<()>) -> bool {
    &&& new == prune(old, incoming_drop(old, tn))
    &&& r is Ok <==> all_incoming_deletable(old, tn)
    &&& r is Ok ==> no_incoming(new, tn)
    &&& r matches Err(e) ==> e matches GraphError::SomeConnectionDeletionsFailed { failures } && failures@.len() > 0
}

/// The connections that deleting, one by one, the first `i` connections of
/// `rv` removes: each one that may be deleted takes from its host slot the
/// connections that end where it ends.
pub open spec fn drop_upto(rv: Seq<ConnectionView>, i: int, g: GraphView) -> spec_fn(Seq<char>, Seq<char>, ConnectionView) -> bool {
    |h: Seq<char>, s: Seq<char>, x: ConnectionView|
        exists|j: int|
            0 <= j < i && (#[trigger] rv[j]).host_node_id == h && rv[j].host_slot_template_id == s
                && rv[j].target_node_id == x.target_node_id
                && rv[j].target_slot_template_id == x.target_slot_template_id && connection_deletable(g, rv[j])
}

/// Pruning keeps every part of the graph except the connections.
pub proof fn lemma_prune_shape(g: GraphView, d: spec_fn(Seq<char>, Seq<char>, ConnectionView) -> bool, h: Seq<char>)
    requires
        g.instances.dom().contains(h),
    ensures
        prune(g, d).instances.dom() == g.instances.dom(),
        prune(g, d).templates == g.templates,
        ({
            let a = g.instances[h];
            let b = prune(g, d).instances[h];
            &&& b.instance_id == a.instance_id
            &&& b.template_id == a.template_id
            &&& b.fields == a.fields
            &&& b.can_modify_connections == a.can_modify_connections
            &&& b.slots.len() == a.slots.len()
            &&& forall|k: int| 0 <= k < a.slots.len() ==> {
                &&& (#[trigger] b.slots[k]).slot_template_id == a.slots[k].slot_template_id
                &&& b.slots[k].can_modify == a.slots[k].can_modify
                &&& b.slots[k].node_instance_id == a.slots[k].node_instance_id
                &&& b.slots[k].node_template_id == a.slots[k].node_template_id
            }
            &&& forall|s: Seq<char>| slot_index(b, s) == slot_index(a, s)
        }),
{
    let a = g.instances[h];
    let b = prune(g, d).instances[h];
    assert(prune(g, d).instances.dom() =~= g.instances.dom());
    assert forall|s: Seq<char>| slot_index(b, s) == slot_index(a, s) by {
        lemma_slot_index_same_ids(a, b, s);
    }
}

/// Deletability and the slot lookups read only what pruning keeps.
pub proof fn lemma_prune_keeps_locks(g: GraphView, d: spec_fn(Seq<char>, Seq<char>, ConnectionView) -> bool, c: ConnectionView)
    requires
        slot_known(g, c.host_node_id, c.host_slot_template_id),
    ensures
        slot_known(prune(g, d), c.host_node_id, c.host_slot_template_id),
        connection_deletable(prune(g, d), c) == connection_deletable(g, c),
{
    lemma_prune_shape(g, d, c.host_node_id);
    lemma_first_index(g.instances[c.host_node_id].slots, slot_with_template_id(c.host_slot_template_id));
}

impl Graph {
    /// The connections of the graph that end at node `tn`.
    fn incoming_connections(&self, tn: &str) -> (r: Vec<Connection>)
        requires
            self.wf(),
        ensures
            forall|j: int| 0 <= j < r@.len() ==> (#[trigger] r@[j])@.target_node_id == tn@ && hosted_in(self@, r@[j]@),
            forall|h: Seq<char>, k: int, i: int|
                self@.instances.dom().contains(h) && 0 <= k < self@.instances[h].slots.len() && 0 <= i
                    < self@.instances[h].slots[k].connections.len()
                    && (#[trigger] self@.instances[h].slots[k].connections[i]).target_node_id == tn@
                    ==> connection_views(r@).contains(self@.instances[h].slots[k].connections[i]),
    {
        let list = self.instance_list();
        let ghost s = node_instance_views(list@);
        let ghost g = self@;
        let mut r: Vec<Connection> = Vec::new();
        let n = list.len();
        let mut a: usize = 0;
        while a < n
            invariant
                n == list@.len(),
                s == node_instance_views(list@),
                g == self@,
                distinct_keys(s, instance_key()),
                keyed(s, instance_key()) == g.instances,
                a <= n,
                forall|j: int| 0 <= j < r@.len() ==> (#[trigger] r@[j])@.target_node_id == tn@ && hosted_in(g, r@[j]@),
                forall|b: int, k: int, i: int|
                    0 <= b < a && 0 <= k < s[b].slots.len() && 0 <= i < s[b].slots[k].connections.len()
                        && (#[trigger] s[b].slots[k].connections[i]).target_node_id == tn@
                        ==> connection_views(r@).contains(s[b].slots[k].connections[i]),
            decreases n - a,
        {
            let instance = &list[a];
            proof {
                lemma_keyed_index(s, instance_key(), a as int);
                assert(s[a as int] == instance@);
            }
            let ghost h = instance@.instance_id;
            let ns = instance.slots.len();
            let mut k: usize = 0;
            while k < ns
                invariant
                    n == list@.len(),
                    s == node_instance_views(list@),
                    instance == &list@[a as int],
                    a < n,
                    ns == instance.slots@.len(),
                    g.instances.dom().contains(h),
                    g.instances[h] == instance@,
                    k <= ns,
                    forall|j: int| 0 <= j < r@.len() ==> (#[trigger] r@[j])@.target_node_id == tn@ && hosted_in(g, r@[j]@),
                    forall|b: int, k2: int, i: int|
                        0 <= b < a && 0 <= k2 < s[b].slots.len() && 0 <= i < s[b].slots[k2].connections.len()
                            && (#[trigger] s[b].slots[k2].connections[i]).target_node_id == tn@
                            ==> connection_views(r@).contains(s[b].slots[k2].connections[i]),
                    forall|k2: int, i: int|
                        0 <= k2 < k && 0 <= i < instance@.slots[k2].connections.len()
                            && (#[trigger] instance@.slots[k2].connections[i]).target_node_id == tn@
                            ==> connection_views(r@).contains(instance@.slots[k2].connections[i]),
                decreases ns - k,
            {
                let conns = &instance.slots[k].connections;
                let m = conns.len();
                let mut i: usize = 0;
                while i < m
                    invariant
                        n == list@.len(),
                        s == node_instance_views(list@),
                        instance == &list@[a as int],
                        a < n,
                        ns == instance.slots@.len(),
                        k < ns,
                        conns == &instance.slots@[k as int].connections,
                        m == conns@.len(),
                        g.instances.dom().contains(h),
                        g.instances[h] == instance@,
                        i <= m,
                        forall|j: int| 0 <= j < r@.len() ==> (#[trigger] r@[j])@.target_node_id == tn@ && hosted_in(g, r@[j]@),
                        forall|b: int, k2: int, i2: int|
                            0 <= b < a && 0 <= k2 < s[b].slots.len() && 0 <= i2 < s[b].slots[k2].connections.len()
                                && (#[trigger] s[b].slots[k2].connections[i2]).target_node_id == tn@
                                ==> connection_views(r@).contains(s[b].slots[k2].connections[i2]),
                        forall|k2: int, i2: int|
                            0 <= k2 < k && 0 <= i2 < instance@.slots[k2].connections.len()
                                && (#[trigger] instance@.slots[k2].connections[i2]).target_node_id == tn@
                                ==> connection_views(r@).contains(instance@.slots[k2].connections[i2]),
                        forall|i2: int|
                            0 <= i2 < i && (#[trigger] instance@.slots[k as int].connections[i2]).target_node_id == tn@
                                ==> connection_views(r@).contains(instance@.slots[k as int].connections[i2]),
                    decreases m - i,
                {
                    let ghost before = r@;
                    proof {
                        assert(instance@.slots[k as int].connections[i as int] == conns@[i as int]@);
                    }
                    if str_eq(conns[i].target_node_id.as_str(), tn) {
                        r.push(conns[i].clone());
                        proof {
                            assert(connection_views(r@) =~= connection_views(before).push(conns@[i as int]@));
                            assert(g.instances[h].slots[k as int].connections[i as int] == r@[r@.len() - 1]@);
                            assert(hosted_in(g, r@[r@.len() - 1]@));
                        }
                    }
                    i = i + 1;
                }
                k = k + 1;
            }
            a = a + 1;
        }
        proof {
            assert forall|h: Seq<char>, k: int, i: int|
                g.instances.dom().contains(h) && 0 <= k < g.instances[h].slots.len() && 0 <= i
                    < g.instances[h].slots[k].connections.len()
                    && (#[trigger] g.instances[h].slots[k].connections[i]).target_node_id == tn@
                    implies connection_views(r@).contains(g.instances[h].slots[k].connections[i]) by {
                lemma_keyed_dom(s, instance_key(), h);
                let b = choose|b: int| 0 <= b < s.len() && (instance_key())(s[b]) == h;
                lemma_keyed_index(s, instance_key(), b);
                assert(s[b].slots[k].connections[i] == g.instances[h].slots[k].connections[i]);
            }
        }
        r
    }
}

/// A connection hosted by the graph sits in the first slot of its host made
/// from its host slot template.
pub proof fn lemma_hosted_place(g: GraphView, c: ConnectionView)
    requires
        view_well_formed(g),
        hosted_in(g, c),
    ensures
        g.instances.dom().contains(c.host_node_id),
        slot_index(g.instances[c.host_node_id], c.host_slot_template_id) is Some,
        ({
            let k = slot_index(g.instances[c.host_node_id], c.host_slot_template_id)->0;
            &&& 0 <= k < g.instances[c.host_node_id].slots.len()
            &&& g.instances[c.host_node_id].slots[k].slot_template_id == c.host_slot_template_id
            &&& g.instances[c.host_node_id].slots[k].connections.contains(c)
        }),
{
    let (h, k, i) = choose|h: Seq<char>, k: int, i: int|
        g.instances.dom().contains(h) && 0 <= k < g.instances[h].slots.len() && 0 <= i
            < g.instances[h].slots[k].connections.len() && #[trigger] g.instances[h].slots[k].connections[i]
            == c;
    let n = g.instances[h];
    assert(instance_well_formed(g, n));
    assert(slot_well_placed(n, n.slots[k]));
    assert(n.slots[k].connections.len() > 0);
    assert(slot_index(n, n.slots[k].slot_template_id) == Some(k));
}

/// Processing a connection that may be deleted removes, from its host slot,
/// the connections that end where it ends.
pub proof fn lemma_drop_step(g0: GraphView, rv: Seq<ConnectionView>, i: int)
    requires
        view_well_formed(g0),
        0 <= i < rv.len(),
        hosted_in(g0, rv[i]),
        connection_deletable(g0, rv[i]),
    ensures
        ({
            let cur = prune(g0, drop_upto(rv, i, g0));
            let tn = rv[i].target_node_id;
            let h = rv[i].host_node_id;
            let k = slot_index(g0.instances[h], rv[i].host_slot_template_id)->0;
            prune(g0, drop_upto(rv, i + 1, g0)) == GraphView {
                templates: cur.templates,
                instances: cur.instances.insert(
                    h,
                    with_slot_connections(
                        cur.instances[h],
                        k,
                        retained_connections(
                            cur.instances[h].slots[k].connections,
                            tn,
                            rv[i].target_slot_template_id,
                        ),
                    ),
                ),
            }
        }),
{
    let d0 = drop_upto(rv, i, g0);
    let d1 = drop_upto(rv, i + 1, g0);
    let cur = prune(g0, d0);
    let nxt = prune(g0, d1);
    let c = rv[i];
    let tn = c.target_node_id;
    let h = c.host_node_id;
    let ts = c.target_slot_template_id;
    lemma_hosted_place(g0, c);
    let k = slot_index(g0.instances[h], c.host_slot_template_id)->0;
    lemma_first_index(g0.instances[h].slots, slot_with_template_id(c.host_slot_template_id));
    let target = cur.instances.insert(
        h,
        with_slot_connections(
            cur.instances[h],
            k,
            retained_connections(cur.instances[h].slots[k].connections, tn, ts),
        ),
    );
    assert forall|h2: Seq<char>| #[trigger] g0.instances.dom().contains(h2) && h2 != h implies nxt.instances[h2] == cur.instances[h2] by {
        let n = g0.instances[h2];
        assert(n.instance_id == h2);
        assert forall|q: int, j: int|
            0 <= q < n.slots.len() && 0 <= j < n.slots[q].connections.len() implies d1(
            n.instance_id,
            n.slots[q].slot_template_id,
            #[trigger] n.slots[q].connections[j],
        ) == d0(n.instance_id, n.slots[q].slot_template_id, n.slots[q].connections[j]) by {
            let x = n.slots[q].connections[j];
            if d1(n.instance_id, n.slots[q].slot_template_id, x) {
                let w = choose|w: int|
                    0 <= w < i + 1 && (#[trigger] rv[w]).host_node_id == n.instance_id
                        && rv[w].host_slot_template_id == n.slots[q].slot_template_id
                        && rv[w].target_node_id == x.target_node_id
                        && rv[w].target_slot_template_id == x.target_slot_template_id
                        && connection_deletable(g0, rv[w]);
                assert(w != i);
            }
        }
        lemma_prune_instance_ext(n, d1, d0);
    }
    let n = g0.instances[h];
    assert(n.instance_id == h);
    let a = nxt.instances[h];
    let b = target[h];
    assert forall|q: int| 0 <= q < n.slots.len() implies #[trigger] a.slots[q] == b.slots[q] by {
        let sq = n.slots[q].slot_template_id;
        let cs = n.slots[q].connections;
        let p0 = |x: ConnectionView| !d0(n.instance_id, sq, x);
        let p1 = |x: ConnectionView| !d1(n.instance_id, sq, x);
        if q == k {
            assert forall|j: int| 0 <= j < cs.len() implies p1(#[trigger] cs[j]) == (p0(cs[j]) && !(cs[j].target_node_id == tn && cs[j].target_slot_template_id == ts)) by {
                let x = cs[j];
                if d1(n.instance_id, sq, x) && !d0(n.instance_id, sq, x) {
                    let w = choose|w: int|
                        0 <= w < i + 1 && (#[trigger] rv[w]).host_node_id == n.instance_id
                            && rv[w].host_slot_template_id == sq
                            && rv[w].target_node_id == x.target_node_id
                            && rv[w].target_slot_template_id == x.target_slot_template_id
                            && connection_deletable(g0, rv[w]);
                    assert(w == i);
                }
                if x.target_node_id == tn && x.target_slot_template_id == ts {
                    assert(rv[i].host_node_id == n.instance_id);
                    assert(d1(n.instance_id, sq, x));
                }
            }
            lemma_retained_of_kept(cs, p0, p1, tn, ts);
        } else if sq == c.host_slot_template_id {
            if cs.len() > 0 {
                assert(instance_well_formed(g0, n));
                assert(slot_index(n, sq) == Some(q));
            }
            lemma_keep_where_empty(cs, p0);
            lemma_keep_where_empty(cs, p1);
        } else {
            assert forall|j: int| 0 <= j < cs.len() implies p1(#[trigger] cs[j]) == p0(cs[j]) by {
                let x = cs[j];
                if d1(n.instance_id, sq, x) {
                    let w = choose|w: int|
                        0 <= w < i + 1 && (#[trigger] rv[w]).host_node_id == n.instance_id
                            && rv[w].host_slot_template_id == sq
                            && rv[w].target_node_id == x.target_node_id
                            && rv[w].target_slot_template_id == x.target_slot_template_id
                            && connection_deletable(g0, rv[w]);
                    assert(w != i);
                }
            }
            lemma_keep_where_ext(cs, p1, p0);
        }
    }
    assert(a.slots =~= b.slots);
    assert(nxt.instances =~= target);
}

/// Processing a connection that may not be deleted removes nothing.
pub proof fn lemma_drop_skip(g0: GraphView, rv: Seq<ConnectionView>, i: int)
    requires
        0 <= i < rv.len(),
        !connection_deletable(g0, rv[i]),
    ensures
        prune(g0, drop_upto(rv, i + 1, g0)) == prune(g0, drop_upto(rv, i, g0)),
{
    let d0 = drop_upto(rv, i, g0);
    let d1 = drop_upto(rv, i + 1, g0);
    assert forall|h: Seq<char>, s: Seq<char>, x: ConnectionView| #[trigger] d1(h, s, x) == d0(h, s, x) by {
        if d1(h, s, x) {
            let w = choose|w: int|
                0 <= w < i + 1 && (#[trigger] rv[w]).host_node_id == h && rv[w].host_slot_template_id == s
                    && rv[w].target_node_id == x.target_node_id
                    && rv[w].target_slot_template_id == x.target_slot_template_id && connection_deletable(g0, rv[w]);
            assert(w != i);
        }
    }
    assert(d1 =~= d0);
}

/// Once every connection to `tn` has been processed, the removed connections
/// are those `incoming_drop` describes.
pub proof fn lemma_drop_complete(g0: GraphView, rv: Seq<ConnectionView>, tn: Seq<char>)
    requires
        view_well_formed(g0),
        forall|j: int| 0 <= j < rv.len() ==> (#[trigger] rv[j]).target_node_id == tn && hosted_in(g0, rv[j]),
        forall|h: Seq<char>, k: int, i: int|
            g0.instances.dom().contains(h) && 0 <= k < g0.instances[h].slots.len() && 0 <= i
                < g0.instances[h].slots[k].connections.len()
                && (#[trigger] g0.instances[h].slots[k].connections[i]).target_node_id == tn
                ==> rv.contains(g0.instances[h].slots[k].connections[i]),
    ensures
        prune(g0, drop_upto(rv, rv.len() as int, g0)) == prune(g0, incoming_drop(g0, tn)),
{
    let d = drop_upto(rv, rv.len() as int, g0);
    let e = incoming_drop(g0, tn);
    assert forall|h: Seq<char>, s: Seq<char>, x: ConnectionView| #[trigger] d(h, s, x) == e(h, s, x) by {
        if d(h, s, x) {
            let w = choose|w: int|
                0 <= w < rv.len() && (#[trigger] rv[w]).host_node_id == h && rv[w].host_slot_template_id == s
                    && rv[w].target_node_id == x.target_node_id
                    && rv[w].target_slot_template_id == x.target_slot_template_id && connection_deletable(g0, rv[w]);
            lemma_hosted_place(g0, rv[w]);
            let k = slot_index(g0.instances[h], s)->0;
            let cs = g0.instances[h].slots[k].connections;
            let j = choose|j: int| 0 <= j < cs.len() && cs[j] == rv[w];
            assert(cs[j] == rv[w]);
        }
        if e(h, s, x) {
            let k = slot_index(g0.instances[h], s)->0;
            lemma_first_index(g0.instances[h].slots, slot_with_template_id(s));
            let cs = g0.instances[h].slots[k].connections;
            let j = choose|j: int|
                0 <= j < cs.len() && ({
                    let y = #[trigger] cs[j];
                    &&& y.target_node_id == tn
                    &&& y.target_slot_template_id == x.target_slot_template_id
                    &&& connection_deletable(g0, y)
                });
            let y = cs[j];
            assert(rv.contains(y));
            let w = choose|w: int| 0 <= w < rv.len() && rv[w] == y;
            let n = g0.instances[h];
            assert(slot_well_placed(n, n.slots[k]));
            assert(rv[w].host_node_id == h);
        }
    }
    assert(d =~= e);
}

/// When every connection to `tn` may be deleted, none remains.
pub proof fn lemma_incoming_all_removed(g: GraphView, tn: Seq<char>)
    requires
        view_well_formed(g),
        all_incoming_deletable(g, tn),
    ensures
        no_incoming(prune(g, incoming_drop(g, tn)), tn),
{
    let p = prune(g, incoming_drop(g, tn));
    assert forall|h: Seq<char>, k: int, i: int|
        p.instances.dom().contains(h) && 0 <= k < p.instances[h].slots.len() && 0 <= i
            < p.instances[h].slots[k].connections.len() implies (
        #[trigger] p.instances[h].slots[k].connections[i]).target_node_id != tn by {
        lemma_prune_shape(g, incoming_drop(g, tn), h);
        let n = g.instances[h];
        let sk = n.slots[k].slot_template_id;
        let cs = n.slots[k].connections;
        let pred = |x: ConnectionView| !(incoming_drop(g, tn))(n.instance_id, sk, x);
        crate::prune::lemma_keep_where_subset(cs, pred);
        let x = p.instances[h].slots[k].connections[i];
        assert(p.instances[h].slots[k].connections == keep_where(cs, pred));
        assert(cs.contains(x) && pred(x));
        if x.target_node_id == tn {
            let j = choose|j: int| 0 <= j < cs.len() && cs[j] == x;
            assert(instance_well_formed(g, n));
            assert(n.instance_id == h);
            assert(cs.len() > 0);
            assert(slot_index(n, sk) == Some(k));
            assert(connection_deletable(g, cs[j]));
        }
    }
}

impl Graph {
    /// Deletes every connection that ends at node `node_id`, continuing past
    /// connections that may not be deleted and reporting them at the end.
    pub fn remove_all_incoming_connections(&mut self, node_id: &str) -> (r: GraphResult<()>)
        requires
            old(self).wf(),
            incoming_hosts_known(old(self)@, node_id@),
        ensures
            final(self).wf(),
            remove_incoming_post(old(self)@, final(self)@, node_id@, r),
    {
        proof {
            self.lemma_wf();
        }
        let ghost g0 = self@;
        let ghost tn = node_id@;
        let connections_to_remove = self.incoming_connections(node_id);
        let ghost rv = connection_views(connections_to_remove@);
        let mut errs: Vec<GraphError> = Vec::new();
        let n = connections_to_remove.len();
        let mut i: usize = 0;
        proof {
            lemma_drop_skip_base(g0, rv);
        }
        while i < n
            invariant
                self.wf(),
                view_well_formed(g0),
                incoming_hosts_known(g0, tn),
                n == connections_to_remove@.len(),
                rv == connection_views(connections_to_remove@),
                forall|j: int| 0 <= j < rv.len() ==> (#[trigger] rv[j]).target_node_id == tn && hosted_in(g0, rv[j]),
                i <= n,
                self@ == prune(g0, drop_upto(rv, i as int, g0)),
                errs@.len() > 0 <==> exists|j: int| 0 <= j < i && !connection_deletable(g0, #[trigger] rv[j]),
            decreases n - i,
        {
            let conn = &connections_to_remove[i];
            let ghost cur = self@;
            proof {
                assert(rv[i as int] == conn@);
                lemma_hosted_place(g0, conn@);
                let h = conn@.host_node_id;
                let k = slot_index(g0.instances[h], conn@.host_slot_template_id)->0;
                let cs = g0.instances[h].slots[k].connections;
                let q = choose|q: int| 0 <= q < cs.len() && cs[q] == conn@;
                assert(g0.instances[h].slots[k].connections[q].target_node_id == tn);
                assert(slot_known(g0, h, conn@.host_slot_template_id));
                crate::deletion::lemma_prune_keeps_locks(g0, drop_upto(rv, i as int, g0), conn@);
                lemma_prune_shape(g0, drop_upto(rv, i as int, g0), h);
            }
            let result = self.delete_connection(conn);
            proof {
                if connection_deletable(g0, conn@) {
                    lemma_drop_step(g0, rv, i as int);
                    assert(self@.instances =~= prune(g0, drop_upto(rv, i + 1, g0)).instances);
                } else {
                    lemma_drop_skip(g0, rv, i as int);
                }
            }
            match result {
                Ok(()) => {},
                Err(e) => {
                    errs.push(e);
                },
            }
            proof {
                if !connection_deletable(g0, rv[i as int]) {
                    assert(exists|j: int| 0 <= j < i + 1 && !connection_deletable(g0, #[trigger] rv[j]));
                }
                if exists|j: int| 0 <= j < i + 1 && !connection_deletable(g0, #[trigger] rv[j]) {
                    let j = choose|j: int| 0 <= j < i + 1 && !connection_deletable(g0, #[trigger] rv[j]);
                    if j < i {
                        assert(exists|j2: int| 0 <= j2 < i && !connection_deletable(g0, #[trigger] rv[j2]));
                    }
                }
            }
            i = i + 1;
        }
        proof {
            lemma_drop_complete(g0, rv, tn);
            if all_incoming_deletable(g0, tn) {
                assert forall|j: int| 0 <= j < i implies connection_deletable(g0, #[trigger] rv[j]) by {
                    let (h, k, q) = choose|h: Seq<char>, k: int, q: int|
                        g0.instances.dom().contains(h) && 0 <= k < g0.instances[h].slots.len() && 0 <= q
                            < g0.instances[h].slots[k].connections.len()
                            && #[trigger] g0.instances[h].slots[k].connections[q] == rv[j];
                }
                lemma_incoming_all_removed(g0, tn);
            } else {
                let (h, k, q) = choose|h: Seq<char>, k: int, q: int|
                    g0.instances.dom().contains(h) && 0 <= k < g0.instances[h].slots.len() && 0 <= q
                        < g0.instances[h].slots[k].connections.len()
                        && (#[trigger] g0.instances[h].slots[k].connections[q]).target_node_id == tn
                        && !connection_deletable(g0, g0.instances[h].slots[k].connections[q]);
                let y = g0.instances[h].slots[k].connections[q];
                assert(rv.contains(y));
                let w = choose|w: int| 0 <= w < rv.len() && rv[w] == y;
                assert(!connection_deletable(g0, rv[w]));
            }
        }
        if errs.len() > 0 {
            return Err(GraphError::SomeConnectionDeletionsFailed { failures: errs });
        }
        Ok(())
    }
}

/// Before anything is processed, nothing is removed.
pub proof fn lemma_drop_skip_base(g0: GraphView, rv: Seq<ConnectionView>)
    ensures
        prune(g0, drop_upto(rv, 0, g0)) == g0,
{
    crate::prune::lemma_prune_nothing(g0, drop_upto(rv, 0, g0));
}

/// The connections that deleting the connections of slot `s0` of node `h0`
/// removes: those of that slot that end where a deletable connection of the
/// slot ends.
pub open spec fn slot_drop(g: GraphView, h0: Seq<char>, s0: Seq<char>) -> spec_fn(Seq<char>, Seq<char>, ConnectionView) -> bool {
    |h: Seq<char>, s: Seq<char>, x: ConnectionView|
        h == h0 && s == s0 && ({
            let cs = g.instances[h0].slots[slot_index(g.instances[h0], s0)->0].connections;
            exists|j: int|
                0 <= j < cs.len() && (#[trigger] cs[j]).target_node_id == x.target_node_id
                    && cs[j].target_slot_template_id == x.target_slot_template_id
                    && connection_deletable(g, cs[j])
        })
}

/// What clearing slot `sid` of node `node` needs of the graph: when it is an
/// incoming slot, every slot holding a connection to the node has its slot
/// template.
pub open spec fn slot_clearing_ready(g: GraphView, node: Seq<char>, sid: Seq<char>) -> bool {
    (crate::queries::slot_caps(g, node, sid) matches Some((st, _)) && st.slot_type == crate::model::SlotType::Incoming)
        ==> incoming_hosts_known(g, node)
}

/// Every connection of slot `s0` of node `h0` may be deleted.
pub open spec fn slot_connections_deletable(g: GraphView, h0: Seq<char>, s0: Seq<char>) -> bool {
    let cs = g.instances[h0].slots[slot_index(g.instances[h0], s0)->0].connections;
    forall|j: int| 0 <= j < cs.len() ==> connection_deletable(g, #[trigger] cs[j])
}

/// What `delete_slot_connections` does.
pub open spec fn delete_slot_post(
    old: GraphView,
    new: GraphView,
    node: Seq<char>,
    sid: Seq<char>,
    r: GraphResult<()>,
) -> bool {
    match crate::queries::slot_caps(old, node, sid) {
        None => {
            &&& r matches Err(GraphError::SlotNotFound { node_id, slot_id })
            &&& node_id@ == node && slot_id@ == sid
            &&& new == old
        },
        Some((st, _)) => if !slot_modifiable(old, node, sid) {
            &&& r matches Err(GraphError::SlotDeletionFailed { slot_name, reason })
            &&& slot_name@ == st.name
            &&& crate::connect::slot_lock_error(old, node, sid, *reason)
            &&& new == old
        } else if st.slot_type == crate::model::SlotType::Incoming {
            remove_incoming_post(old, new, node, r)
        } else {
            &&& new == prune(old, slot_drop(old, node, sid))
            &&& r is Ok <==> slot_connections_deletable(old, node, sid)
            &&& r matches Err(e) ==> e matches GraphError::SomeConnectionDeletionsFailed { failures } && failures@.len() > 0
        },
    }
}

impl Graph {
    /// Deletes the connections of slot `slot_template_id` of node `node_id`:
    /// for an incoming slot, every connection that ends at the node; for an
    /// outgoing slot, the connections the slot hosts.
    pub fn delete_slot_connections(&mut self, node_id: &str, slot_template_id: &str) -> (r: GraphResult<()>)
        requires
            old(self).wf(),
            slot_clearing_ready(old(self)@, node_id@, slot_template_id@),
        ensures
            final(self).wf(),
            delete_slot_post(old(self)@, final(self)@, node_id@, slot_template_id@, r),
    {
        proof {
            self.lemma_wf();
        }
        let ghost g0 = self@;
        let caps = match self.get_slot_capabilities(node_id, slot_template_id) {
            Some(caps) => caps,
            None => {
                return Err(
                    GraphError::SlotNotFound {
                        node_id: String::from_str(node_id),
                        slot_id: String::from_str(slot_template_id),
                    },
                );
            },
        };
        let ghost k = slot_index(g0.instances[node_id@], slot_template_id@)->0;
        proof {
            lemma_first_index(g0.instances[node_id@].slots, slot_with_template_id(slot_template_id@));
            let n = g0.instances[node_id@];
            assert(slot_well_placed(n, n.slots[k]));
            assert(caps.instance@ == n.slots[k]);
        }
        let slot_type = caps.template.slot_type;
        match self.check_slot_modifiable_status(caps.instance) {
            Ok(()) => {},
            Err(err) => {
                return Err(
                    GraphError::SlotDeletionFailed {
                        slot_name: caps.template.name.clone(),
                        reason: Box::new(err),
                    },
                );
            },
        }
        match slot_type {
            crate::model::SlotType::Incoming => {
                return self.remove_all_incoming_connections(node_id);
            },
            crate::model::SlotType::Outgoing => {},
        }
        let connections = crate::model::clone_connections(&caps.instance.connections);
        let ghost rv = connection_views(connections@);
        proof {
            assert(rv == g0.instances[node_id@].slots[k].connections);
            let n = g0.instances[node_id@];
            assert(slot_well_placed(n, n.slots[k]));
            assert forall|j: int| 0 <= j < rv.len() implies hosted_in(g0, #[trigger] rv[j]) by {
                assert(g0.instances[node_id@].slots[k].connections[j] == rv[j]);
            }
            lemma_drop_skip_base(g0, rv);
        }
        let mut errs: Vec<GraphError> = Vec::new();
        let m = connections.len();
        let mut i: usize = 0;
        while i < m
            invariant
                self.wf(),
                view_well_formed(g0),
                slot_known(g0, node_id@, slot_template_id@),
                g0.instances[node_id@].slots[k].slot_template_id == slot_template_id@,
                m == connections@.len(),
                rv == connection_views(connections@),
                rv == g0.instances[node_id@].slots[k].connections,
                0 <= k < g0.instances[node_id@].slots.len(),
                forall|j: int| 0 <= j < rv.len() ==> hosted_in(g0, #[trigger] rv[j]),
                i <= m,
                self@ == prune(g0, drop_upto(rv, i as int, g0)),
                errs@.len() > 0 <==> exists|j: int| 0 <= j < i && !connection_deletable(g0, #[trigger] rv[j]),
            decreases m - i,
        {
            let conn = &connections[i];
            proof {
                assert(rv[i as int] == conn@);
                lemma_hosted_place(g0, conn@);
                let n = g0.instances[node_id@];
                assert(slot_well_placed(n, n.slots[k]));
                assert(n.slots[k].connections[i as int] == conn@);
                assert(conn@.host_node_id == node_id@ && conn@.host_slot_template_id == slot_template_id@);
                lemma_prune_keeps_locks(g0, drop_upto(rv, i as int, g0), conn@);
                lemma_prune_shape(g0, drop_upto(rv, i as int, g0), conn@.host_node_id);
            }
            let result = self.delete_connection(conn);
            proof {
                if connection_deletable(g0, conn@) {
                    lemma_drop_step(g0, rv, i as int);
                    assert(self@.instances =~= prune(g0, drop_upto(rv, i + 1, g0)).instances);
                } else {
                    lemma_drop_skip(g0, rv, i as int);
                }
            }
            match result {
                Ok(()) => {},
                Err(e) => {
                    errs.push(e);
                },
            }
            proof {
                if !connection_deletable(g0, rv[i as int]) {
                    assert(exists|j: int| 0 <= j < i + 1 && !connection_deletable(g0, #[trigger] rv[j]));
                }
                if exists|j: int| 0 <= j < i + 1 && !connection_deletable(g0, #[trigger] rv[j]) {
                    let j = choose|j: int| 0 <= j < i + 1 && !connection_deletable(g0, #[trigger] rv[j]);
                    if j < i {
                        assert(exists|j2: int| 0 <= j2 < i && !connection_deletable(g0, #[trigger] rv[j2]));
                    }
                }
            }
            i = i + 1;
        }
        proof {
            let d = drop_upto(rv, m as int, g0);
            let e = slot_drop(g0, node_id@, slot_template_id@);
            let n = g0.instances[node_id@];
            assert(slot_well_placed(n, n.slots[k]));
            assert forall|h: Seq<char>, s: Seq<char>, x: ConnectionView| #[trigger] d(h, s, x) == e(h, s, x) by {
                if d(h, s, x) {
                    let w = choose|w: int|
                        0 <= w < m && (#[trigger] rv[w]).host_node_id == h && rv[w].host_slot_template_id == s
                            && rv[w].target_node_id == x.target_node_id
                            && rv[w].target_slot_template_id == x.target_slot_template_id && connection_deletable(g0, rv[w]);
                    assert(n.slots[k].connections[w] == rv[w]);
                }
                if e(h, s, x) {
                    let cs = n.slots[k].connections;
                    let j = choose|j: int|
                        0 <= j < cs.len() && (#[trigger] cs[j]).target_node_id == x.target_node_id
                            && cs[j].target_slot_template_id == x.target_slot_template_id
                            && connection_deletable(g0, cs[j]);
                    assert(rv[j] == cs[j]);
                }
            }
            assert(d =~= e);
        }
        if errs.len() > 0 {
            return Err(GraphError::SomeConnectionDeletionsFailed { failures: errs });
        }
        Ok(())
    }
}

/// The connections that end at node `tn`, wherever they are hosted.
pub open spec fn targets_node(tn: Seq<char>) -> spec_fn(Seq<char>, Seq<char>, ConnectionView) -> bool {
    |h: Seq<char>, s: Seq<char>, x: ConnectionView| x.target_node_id == tn
}

/// Every connection that node `node` hosts may be deleted.
pub open spec fn own_connections_deletable(g: GraphView, node: Seq<char>) -> bool {
    forall|k: int, i: int|
        0 <= k < g.instances[node].slots.len() && 0 <= i < g.instances[node].slots[k].connections.len()
            ==> connection_deletable(g, #[trigger] g.instances[node].slots[k].connections[i])
}

/// Nothing stands in the way of deleting node `node` once it has passed the
/// checks on the node itself: its slots have their slot templates and are
/// modifiable, and the connections it hosts and the connections that end at
/// it may be deleted.
pub open spec fn node_deletion_unblocked(g: GraphView, node: Seq<char>) -> bool {
    &&& forall|k: int|
        0 <= k < g.instances[node].slots.len() ==> slot_template_by_id(
            node_template_of(g, node),
            (#[trigger] g.instances[node].slots[k]).slot_template_id,
        ) is Some
    &&& forall|k: int|
        0 <= k < g.instances[node].slots.len() ==> slot_modifiable(
            g,
            node,
            (#[trigger] g.instances[node].slots[k]).slot_template_id,
        )
    &&& own_connections_deletable(g, node)
    &&& all_incoming_deletable(g, node)
}

/// What clearing slot `sid` of node `node` of `g` leaves, and whether it
/// succeeds, as `delete_slot_connections` does it.
pub open spec fn slot_cleared(g: GraphView, node: Seq<char>, sid: Seq<char>) -> (GraphView, bool) {
    match crate::queries::slot_caps(g, node, sid) {
        None => (g, false),
        Some((st, _)) => if !slot_modifiable(g, node, sid) {
            (g, false)
        } else if st.slot_type == crate::model::SlotType::Incoming {
            (prune(g, incoming_drop(g, node)), all_incoming_deletable(g, node))
        } else {
            (prune(g, slot_drop(g, node, sid)), slot_connections_deletable(g, node, sid))
        },
    }
}

/// The graph after the first `k` slots of node `node` (as `g0` has them) are
/// cleared one after the other, starting from `g0`, and whether every one of
/// those clearings succeeded.
pub open spec fn slots_cleared(g0: GraphView, node: Seq<char>, k: int) -> (GraphView, bool)
    decreases k,
{
    if k <= 0 {
        (g0, true)
    } else {
        let prev = slots_cleared(g0, node, k - 1);
        let step = slot_cleared(prev.0, node, g0.instances[node].slots[k - 1].slot_template_id);
        (step.0, prev.1 && step.1)
    }
}

/// How a node deletion that passed the checks on the node ends: when
/// clearing some slot of the node failed, with a deletion failure listing
/// the slot failures and the graph as the clearings left it; otherwise, when
/// some connection that ends at the node may not be deleted, with the
/// failures of removing those connections and the graph as that removal
/// left it; otherwise with success.
pub open spec fn node_deletion_outcome(old: GraphView, new: GraphView, node: Seq<char>, r: GraphResult<()>) -> bool {
    let cleared = slots_cleared(old, node, old.instances[node].slots.len() as int);
    let gc = cleared.0;
    if !cleared.1 {
        &&& r matches Err(GraphError::NodeDeletionFailed { node_id, node_template_name, reason })
        &&& node_id@ == node && node_template_name@ == node_template_of(old, node).name
        &&& *reason matches GraphError::SomeConnectionDeletionsFailed { failures } && failures@.len() > 0
        &&& new == gc
    } else if !all_incoming_deletable(gc, node) {
        &&& r matches Err(GraphError::SomeConnectionDeletionsFailed { failures }) && failures@.len() > 0
        &&& new == prune(gc, incoming_drop(gc, node))
    } else {
        r is Ok
    }
}

/// What `delete_node_instance` does.
pub open spec fn delete_node_post(old: GraphView, new: GraphView, node: Seq<char>, r: GraphResult<()>) -> bool {
    if !old.instances.dom().contains(node) {
        &&& r matches Err(GraphError::NodeDeletionFailed { node_id, node_template_name, reason })
        &&& node_id@ == node && node_template_name@ == "?"@
        &&& *reason matches GraphError::NodeNotFound(id) && id@ == node
        &&& new == old
    } else {
        let t = node_template_of(old, node);
        let failed_with = |inner: spec_fn(GraphError) -> bool|
            r matches Err(GraphError::NodeDeletionFailed { node_id, node_template_name, reason })
                && node_id@ == node && node_template_name@ == t.name && inner(*reason) && new == old;
        if !node_modifiable(old, node) {
            failed_with(|e: GraphError| crate::connect::node_lock_error(old, node, e))
        } else if t.min_instances matches Some(m) && crate::queries::instance_ids_of_template(old, t.template_id).len() <= m {
            failed_with(|e: GraphError| crate::errors::is_other(e, "Minimum instances reached"@))
        } else {
            &&& r is Ok ==> new.templates == old.templates && new.instances == prune(old, targets_node(node)).instances.remove(node)
            &&& node_deletion_unblocked(old, node) ==> r is Ok
            &&& r is Err ==> exists|d: spec_fn(Seq<char>, Seq<char>, ConnectionView) -> bool| new == #[trigger] prune(old, d)
            &&& node_deletion_outcome(old, new, node, r)
        }
    }
}

pub proof fn lemma_prune_keeps_slot_templates(g: GraphView, d: spec_fn(Seq<char>, Seq<char>, ConnectionView) -> bool)
    requires
        slots_have_templates(g),
    ensures
        slots_have_templates(prune(g, d)),
{
    let p = prune(g, d);
    assert forall|h: Seq<char>, k: int|
        p.instances.dom().contains(h) && 0 <= k < p.instances[h].slots.len() implies slot_template_by_id(
        node_template_of(p, h),
        (#[trigger] p.instances[h].slots[k]).slot_template_id,
    ) is Some by {
        lemma_prune_shape(g, d, h);
        assert(g.instances[h].slots[k] == g.instances[h].slots[k]);
    }
}

/// Pruning does not change whether a slot is modifiable.
pub proof fn lemma_prune_keeps_slot_lock(g: GraphView, d: spec_fn(Seq<char>, Seq<char>, ConnectionView) -> bool, node: Seq<char>, sid: Seq<char>)
    requires
        g.instances.dom().contains(node),
    ensures
        slot_modifiable(prune(g, d), node, sid) == slot_modifiable(g, node, sid),
        node_modifiable(prune(g, d), node) == node_modifiable(g, node),
        crate::queries::slot_caps(prune(g, d), node, sid) == match crate::queries::slot_caps(g, node, sid) {
            Some((t, s)) => Some((t, prune(g, d).instances[node].slots[slot_index(g.instances[node], sid)->0])),
            None => None,
        },
{
    lemma_prune_shape(g, d, node);
    lemma_first_index(g.instances[node].slots, slot_with_template_id(sid));
    if g.instances[node].slots.len() > 0 {
        assert(prune(g, d).instances[node].slots[0].can_modify == g.instances[node].slots[0].can_modify);
    }
}

/// Connections that may be deleted in `g` may still be deleted after pruning.
pub proof fn lemma_prune_keeps_deletable(g: GraphView, d: spec_fn(Seq<char>, Seq<char>, ConnectionView) -> bool, h: Seq<char>, k: int, i: int)
    requires
        view_well_formed(g),
        slot_template_by_id(node_template_of(g, h), g.instances[h].slots[k].slot_template_id) is Some,
        g.instances.dom().contains(h),
        0 <= k < g.instances[h].slots.len(),
        0 <= i < prune(g, d).instances[h].slots[k].connections.len(),
    ensures
        g.instances[h].slots[k].connections.contains(prune(g, d).instances[h].slots[k].connections[i]),
        connection_deletable(prune(g, d), prune(g, d).instances[h].slots[k].connections[i])
            == connection_deletable(g, prune(g, d).instances[h].slots[k].connections[i]),
{
    crate::prune::lemma_prune_subset(g, d, h, k, i);
    let y = prune(g, d).instances[h].slots[k].connections[i];
    let j = choose|j: int| 0 <= j < g.instances[h].slots[k].connections.len() && g.instances[h].slots[k].connections[j] == y;
    assert(hosted_in(g, y)) by {
        assert(g.instances[h].slots[k].connections[j] == y);
    }
    lemma_hosted_place(g, y);
    let kk = slot_index(g.instances[y.host_node_id], y.host_slot_template_id)->0;
    assert(g.instances[y.host_node_id].slots[kk] == g.instances[y.host_node_id].slots[kk]);
    lemma_prune_keeps_locks(g, d, y);
}

/// The final state of a successful node deletion.
pub proof fn lemma_node_deletion_result(g0: GraphView, d: spec_fn(Seq<char>, Seq<char>, ConnectionView) -> bool, node: Seq<char>)
    requires
        view_well_formed(g0),
        forall|h: Seq<char>, s: Seq<char>, x: ConnectionView| h != node && #[trigger] d(h, s, x) ==> x.target_node_id == node,
        no_incoming(prune(g0, d), node),
    ensures
        prune(g0, d).instances.remove(node) == prune(g0, targets_node(node)).instances.remove(node),
{
    let a = prune(g0, d);
    let b = prune(g0, targets_node(node));
    assert forall|h: Seq<char>| #[trigger] g0.instances.dom().contains(h) && h != node implies a.instances[h] == b.instances[h] by {
        let n = g0.instances[h];
        assert(n.instance_id == h);
        assert forall|k: int, i: int|
            0 <= k < n.slots.len() && 0 <= i < n.slots[k].connections.len() implies d(
            n.instance_id,
            n.slots[k].slot_template_id,
            #[trigger] n.slots[k].connections[i],
        ) == (targets_node(node))(n.instance_id, n.slots[k].slot_template_id, n.slots[k].connections[i]) by {
            let x = n.slots[k].connections[i];
            if x.target_node_id == node && !d(h, n.slots[k].slot_template_id, x) {
                let p = |y: ConnectionView| !d(n.instance_id, n.slots[k].slot_template_id, y);
                crate::prune::lemma_keep_where_subset(n.slots[k].connections, p);
                assert(p(n.slots[k].connections[i]));
                let kept = a.instances[h].slots[k].connections;
                assert(kept.contains(x));
                let j = choose|j: int| 0 <= j < kept.len() && kept[j] == x;
                lemma_prune_shape(g0, d, h);
                assert(a.instances[h].slots[k].connections[j].target_node_id != node);
            }
        }
        crate::prune::lemma_prune_instance_ext(n, d, targets_node(node));
    }
    assert(a.instances.remove(node) =~= b.instances.remove(node));
}

impl Graph {
    /// Deletes node `node_id`: refuses when the node is locked or its
    /// template's minimum of instances is reached; otherwise deletes the
    /// connections of each of its slots, then every connection that ends at
    /// it, then the node.
    pub fn delete_node_instance(&mut self, node_id: &str) -> (r: GraphResult<()>)
        requires
            old(self).wf(),
            incoming_hosts_known(old(self)@, node_id@),
        ensures
            final(self).wf(),
            slots_have_templates(old(self)@) ==> slots_have_templates(final(self)@),
            delete_node_post(old(self)@, final(self)@, node_id@, r),
            old(self)@.instances.dom().contains(node_id@)
                && old(self)@.templates[old(self)@.instances[node_id@].template_id].min_instances is Some
                && old(self)@.instances.dom().filter(
                |id: Seq<char>| old(self)@.instances[id].template_id == old(self)@.instances[node_id@].template_id,
            ).len() <= old(self)@.templates[old(self)@.instances[node_id@].template_id].min_instances->0 ==> r is Err
                && final(self)@ == old(self)@,
            old(self)@.instances.dom().contains(node_id@) && (!old(self)@.templates[old(self)@.instances[node_id@].template_id].can_modify_slots
                || !old(self)@.instances[node_id@].can_modify_connections) ==> r is Err && final(self)@ == old(self)@,
            r is Ok ==> final(self)@.instances.dom() == old(self)@.instances.dom().remove(node_id@),
    {
        proof {
            self.lemma_wf();
        }
        let ghost g0 = self@;
        let ghost node = node_id@;
        let instance = match self.instance(node_id) {
            Some(instance) => instance.clone(),
            None => {
                return Err(
                    GraphError::NodeDeletionFailed {
                        reason: Box::new(GraphError::NodeNotFound(String::from_str(node_id))),
                        node_id: String::from_str(node_id),
                        node_template_name: String::from_str("?"),
                    },
                );
            },
        };
        let template = match self.template(instance.template_id.as_str()) {
            Some(template) => template.clone(),
            None => {
                return Err(
                    GraphError::NodeDeletionFailed {
                        reason: Box::new(GraphError::TemplateNotFound(instance.template_id.clone())),
                        node_id: String::from_str(node_id),
                        node_template_name: String::from_str("?"),
                    },
                );
            },
        };
        let instances_of_template = self.instances_of_node_template(template.template_id.as_str());
        proof {
            instances_of_template@.map_values(|x: String| x@).unique_seq_to_set();
            assert(template@.template_id == instance@.template_id);
            assert(g0.instances.dom().filter(|id: Seq<char>| g0.instances[id].template_id == g0.instances[node].template_id)
                =~= crate::queries::instance_ids_of_template(g0, template@.template_id));
        }
        match self.check_node_modifiable_status(&instance) {
            Ok(()) => {},
            Err(err) => {
                return Err(
                    GraphError::NodeDeletionFailed {
                        node_id: String::from_str(node_id),
                        node_template_name: template.name.clone(),
                        reason: Box::new(err),
                    },
                );
            },
        }
        match template.min_instances {
            Some(min) => {
                if instances_of_template.len() <= min {
                    return Err(
                        GraphError::NodeDeletionFailed {
                            node_id: String::from_str(node_id),
                            node_template_name: template.name.clone(),
                            reason: Box::new(crate::errors::other("Minimum instances reached")),
                        },
                    );
                }
            },
            None => {},
        }
        let ghost mut d: spec_fn(Seq<char>, Seq<char>, ConnectionView) -> bool = |h: Seq<char>, s: Seq<char>, x: ConnectionView| false;
        proof {
            crate::prune::lemma_prune_nothing(g0, d);
        }
        let mut slot_errors: Vec<GraphError> = Vec::new();
        let ns = instance.slots.len();
        let mut k: usize = 0;
        while k < ns
            invariant
                self.wf(),
                slots_have_templates(g0) ==> slots_have_templates(self@),
                view_well_formed(g0),
                incoming_hosts_known(g0, node),
                incoming_hosts_known(self@, node),
                g0.instances.dom().contains(node),
                node == node_id@,
                instance@ == g0.instances[node],
                ns == instance.slots@.len(),
                k <= ns,
                self@ == prune(g0, d),
                forall|h: Seq<char>, s: Seq<char>, x: ConnectionView| h != node && #[trigger] d(h, s, x) ==> x.target_node_id == node,
                node_deletion_unblocked(g0, node) ==> slot_errors@.len() == 0,
                self@ == slots_cleared(g0, node, k as int).0,
                (slot_errors@.len() == 0) == slots_cleared(g0, node, k as int).1,
            decreases ns - k,
        {
            let ghost cur = self@;
            let ghost sid = instance@.slots[k as int].slot_template_id;
            proof {
                assert(instance.slots@[k as int]@.slot_template_id == sid);
                lemma_prune_keeps_slot_lock(g0, d, node, sid);
                lemma_first_index(g0.instances[node].slots, slot_with_template_id(sid));
                assert(g0.instances[node].slots[k as int] == g0.instances[node].slots[k as int]);
                lemma_prune_shape(g0, d, node);
            }
            let result = self.delete_slot_connections(node_id, instance.slots[k].slot_template_id.as_str());
            proof {
                let d_old = d;
                let st = (crate::queries::slot_caps(cur, node, sid)->0).0;
                if crate::queries::slot_caps(cur, node, sid) is Some && slot_modifiable(cur, node, sid) {
                    if st.slot_type == crate::model::SlotType::Incoming {
                        let e = incoming_drop(cur, node);
                        crate::prune::lemma_prune_twice(g0, d, e);
                        d = |h: Seq<char>, s: Seq<char>, x: ConnectionView| d(h, s, x) || e(h, s, x);
                        if node_deletion_unblocked(g0, node) {
                            assert forall|h: Seq<char>, k2: int, i: int|
                                cur.instances.dom().contains(h) && 0 <= k2 < cur.instances[h].slots.len() && 0 <= i
                                    < cur.instances[h].slots[k2].connections.len()
                                    && (#[trigger] cur.instances[h].slots[k2].connections[i]).target_node_id == node
                                    implies connection_deletable(cur, cur.instances[h].slots[k2].connections[i]) by {
                                lemma_prune_shape(g0, d_old, h);
                                crate::prune::lemma_prune_subset(g0, d_old, h, k2, i);
                                let y = cur.instances[h].slots[k2].connections[i];
                                let j = choose|j: int| 0 <= j < g0.instances[h].slots[k2].connections.len() && g0.instances[h].slots[k2].connections[j] == y;
                                assert(g0.instances[h].slots[k2].connections[j] == y);
                                assert(g0.instances[h].slots[k2].connections[j].target_node_id == node);
                                lemma_prune_keeps_deletable(g0, d_old, h, k2, i);
                            }
                        }
                    } else {
                        let e = slot_drop(cur, node, sid);
                        crate::prune::lemma_prune_twice(g0, d, e);
                        d = |h: Seq<char>, s: Seq<char>, x: ConnectionView| d(h, s, x) || e(h, s, x);
                        if node_deletion_unblocked(g0, node) {
                            lemma_prune_shape(g0, d_old, node);
                            let kk = slot_index(cur.instances[node], sid)->0;
                            let cs = cur.instances[node].slots[kk].connections;
                            assert forall|j: int| 0 <= j < cs.len() implies connection_deletable(cur, #[trigger] cs[j]) by {
                                assert(g0.instances[node].slots[kk] == g0.instances[node].slots[kk]);
                                lemma_prune_keeps_deletable(g0, d_old, node, kk, j);
                                let y = cs[j];
                                let q = choose|q: int| 0 <= q < g0.instances[node].slots[kk].connections.len() && g0.instances[node].slots[kk].connections[q] == y;
                                assert(g0.instances[node].slots[kk].connections[q] == y);
                            }
                        }
                    }
                }
                if slots_have_templates(g0) {
                    lemma_prune_keeps_slot_templates(g0, d);
                }
                lemma_prune_keeps_incoming_hosts(g0, d, node);
            }
            proof {
                assert(slot_cleared(cur, node, sid).0 == self@);
                assert(result is Ok <==> slot_cleared(cur, node, sid).1);
            }
            match result {
                Ok(()) => {},
                Err(e) => {
                    slot_errors.push(e);
                },
            }
            k = k + 1;
        }
        if slot_errors.len() > 0 {
            return Err(
                GraphError::NodeDeletionFailed {
                    node_id: String::from_str(node_id),
                    node_template_name: template.name.clone(),
                    reason: Box::new(GraphError::SomeConnectionDeletionsFailed { failures: slot_errors }),
                },
            );
        }
        let ghost cur = self@;
        proof {
            if node_deletion_unblocked(g0, node) {
                assert forall|h: Seq<char>, k2: int, i: int|
                    cur.instances.dom().contains(h) && 0 <= k2 < cur.instances[h].slots.len() && 0 <= i
                        < cur.instances[h].slots[k2].connections.len()
                        && (#[trigger] cur.instances[h].slots[k2].connections[i]).target_node_id == node
                        implies connection_deletable(cur, cur.instances[h].slots[k2].connections[i]) by {
                    lemma_prune_shape(g0, d, h);
                    crate::prune::lemma_prune_subset(g0, d, h, k2, i);
                    let y = cur.instances[h].slots[k2].connections[i];
                    let j = choose|j: int| 0 <= j < g0.instances[h].slots[k2].connections.len() && g0.instances[h].slots[k2].connections[j] == y;
                    assert(g0.instances[h].slots[k2].connections[j] == y);
                    assert(g0.instances[h].slots[k2].connections[j].target_node_id == node);
                    lemma_prune_keeps_deletable(g0, d, h, k2, i);
                }
            }
        }
        let removed = self.remove_all_incoming_connections(node_id);
        proof {
            let e = incoming_drop(cur, node);
            crate::prune::lemma_prune_twice(g0, d, e);
            d = |h: Seq<char>, s: Seq<char>, x: ConnectionView| d(h, s, x) || e(h, s, x);
            if slots_have_templates(g0) {
                lemma_prune_keeps_slot_templates(g0, d);
            }
        }
        match removed {
            Ok(()) => {},
            Err(e) => {
                return Err(e);
            },
        }
        proof {
            lemma_node_deletion_result(g0, d, node);
        }
        self.remove_instance(node_id);
        proof {
            assert(self@.instances == prune(g0, targets_node(node)).instances.remove(node));
            if slots_have_templates(g0) {
                assert forall|h: Seq<char>, k2: int|
                    self@.instances.dom().contains(h) && 0 <= k2 < self@.instances[h].slots.len() implies slot_template_by_id(
                    node_template_of(self@, h),
                    (#[trigger] self@.instances[h].slots[k2]).slot_template_id,
                ) is Some by {
                    assert(prune(g0, d).instances[h] == self@.instances[h]);
                    assert(prune(g0, d).instances[h].slots[k2] == self@.instances[h].slots[k2]);
                }
            }
        }
        Ok(())
    }
}

} // verus!
