//! Checking, before a graph is saved, that every slot holds a number of
//! connections within its slot template's bounds.
use vstd::prelude::*;
use vstd::string::*;
use crate::connect::node_template_of;
use crate::deletion::slots_have_templates;
use crate::errors::{GraphError, GraphResult};
use crate::graph::{instance_key, node_instance_views, Graph, GraphView};
use crate::model::{slot_template_by_id, NodeInstance, NodeInstanceView, SlotTemplateView};
use crate::seqs::{distinct_keys, keyed, lemma_keyed_dom, lemma_keyed_index};

verus! {

/// Whether `count` connections lie outside the bounds of slot template `st`.
pub open spec fn out_of_bounds(st: SlotTemplateView, count: int) -> bool {
    st.min_connections > count || (st.max_connections matches Some(m) && m < count)
}

/// The slot template of slot `k` of node `h`.
pub open spec fn slot_template_at(g: GraphView, h: Seq<char>, k: int) -> SlotTemplateView {
    slot_template_by_id(node_template_of(g, h), g.instances[h].slots[k].slot_template_id)->0
}

/// Slot `k` of node `h` holds a number of connections outside its bounds.
pub open spec fn slot_malformed(g: GraphView, h: Seq<char>, k: int) -> bool {
    &&& g.instances.dom().contains(h)
    &&& 0 <= k < g.instances[h].slots.len()
    &&& out_of_bounds(slot_template_at(g, h, k), g.instances[h].slots[k].connections.len() as int)
}

/// Every slot holds between its slot template's minimum and maximum number
/// of connections, both included.
pub open spec fn connection_counts_within_bounds(g: GraphView) -> bool {
    forall|h: Seq<char>, k: int|
        g.instances.dom().contains(h) && 0 <= k < g.instances[h].slots.len() ==> {
            let c = (#[trigger] g.instances[h].slots[k]).connections.len();
            &&& slot_template_at(g, h, k).min_connections <= c
            &&& (slot_template_at(g, h, k).max_connections matches Some(m) ==> c <= m)
        }
}

/// Slot `k` of node `h` holds fewer connections than its slot template's
/// minimum, or more than its maximum.
pub open spec fn connection_count_outside_bounds(g: GraphView, h: Seq<char>, k: int) -> bool {
    &&& g.instances.dom().contains(h)
    &&& 0 <= k < g.instances[h].slots.len()
    &&& {
        let c = g.instances[h].slots[k].connections.len();
        ||| c < slot_template_at(g, h, k).min_connections
        ||| (slot_template_at(g, h, k).max_connections matches Some(m) && c > m)
    }
}

/// Counts within the bounds make no slot malformed; a count outside them
/// makes its slot malformed.
proof fn lemma_bounds_decide_malformed(g: GraphView)
    ensures
        connection_counts_within_bounds(g) ==> forall|h: Seq<char>, k: int| !#[trigger] slot_malformed(g, h, k),
        forall|h: Seq<char>, k: int| #[trigger] connection_count_outside_bounds(g, h, k) ==> slot_malformed(g, h, k),
{
    if connection_counts_within_bounds(g) {
        assert forall|h: Seq<char>, k: int| !#[trigger] slot_malformed(g, h, k) by {
            if g.instances.dom().contains(h) && 0 <= k < g.instances[h].slots.len() {
                assert(g.instances[h].slots[k] == g.instances[h].slots[k]);
            }
        }
    }
}

/// `e` reports slot `k` of node `h` as malformed.
pub open spec fn reports_slot(g: GraphView, h: Seq<char>, k: int, e: GraphError) -> bool {
    let st = slot_template_at(g, h, k);
    &&& e matches GraphError::SlotMalformed { template_name, slot_name, min, max, actual }
    &&& template_name@ == node_template_of(g, h).name
    &&& slot_name@ == st.name
    &&& min == st.min_connections
    &&& max == st.max_connections
    &&& actual == g.instances[h].slots[k].connections.len()
}

/// `e` reports some malformed slot.
pub open spec fn reports_malformed(g: GraphView, e: GraphError) -> bool {
    exists|h: Seq<char>, k: int| #[trigger] slot_malformed(g, h, k) && reports_slot(g, h, k, e)
}

/// Some error of `es` reports slot `k` of node `h`.
pub open spec fn reported_in(g: GraphView, h: Seq<char>, k: int, es: Seq<GraphError>) -> bool {
    exists|i: int| 0 <= i < es.len() && reports_slot(g, h, k, #[trigger] es[i])
}

/// The malformed slots of node `h` among its first `upto` slots, in slot
/// order.
pub open spec fn malformed_in(g: GraphView, h: Seq<char>, upto: int) -> Seq<(Seq<char>, int)>
    decreases upto,
{
    if upto <= 0 {
        Seq::empty()
    } else {
        let p = malformed_in(g, h, upto - 1);
        if slot_malformed(g, h, upto - 1) {
            p.push((h, upto - 1))
        } else {
            p
        }
    }
}

/// The malformed slots of the nodes `order`, node by node.
pub open spec fn malformed_slots(g: GraphView, order: Seq<Seq<char>>) -> Seq<(Seq<char>, int)>
    decreases order.len(),
{
    if order.len() == 0 {
        Seq::empty()
    } else {
        malformed_slots(g, order.drop_last()) + malformed_in(
            g,
            order.last(),
            g.instances[order.last()].slots.len() as int,
        )
    }
}

/// `es` holds one report for each slot of `ms`, in the same order.
pub open spec fn reports_each(g: GraphView, ms: Seq<(Seq<char>, int)>, es: Seq<GraphError>) -> bool {
    &&& es.len() == ms.len()
    &&& forall|i: int| 0 <= i < es.len() ==> reports_slot(g, ms[i].0, ms[i].1, #[trigger] es[i])
}

/// `order` lists each node of `g` exactly once.
pub open spec fn lists_nodes(g: GraphView, order: Seq<Seq<char>>) -> bool {
    &&& forall|i: int, j: int| 0 <= i < order.len() && 0 <= j < order.len() && i != j ==> order[i] != order[j]
    &&& forall|h: Seq<char>| g.instances.dom().contains(h) <==> order.contains(h)
}

/// Reports of two runs of slots, one after the other, report the slots of
/// both runs.
proof fn lemma_reports_each_concat(
    g: GraphView,
    a: Seq<(Seq<char>, int)>,
    x: Seq<GraphError>,
    b: Seq<(Seq<char>, int)>,
    y: Seq<GraphError>,
)
    requires
        reports_each(g, a, x),
        reports_each(g, b, y),
    ensures
        reports_each(g, a + b, x + y),
{
    assert forall|i: int| 0 <= i < (x + y).len() implies reports_slot(g, (a + b)[i].0, (a + b)[i].1, #[trigger] (x + y)[i]) by {
        if i < x.len() {
            assert((x + y)[i] == x[i]);
            assert((a + b)[i] == a[i]);
        } else {
            assert((x + y)[i] == y[i - x.len()]);
            assert((a + b)[i] == b[i - a.len()]);
        }
    }
}

/// What `check_conformity` reports: `Ok` when no slot is malformed;
/// otherwise a save failure listing the malformed slots: one report for each,
/// node after node (in the order the nodes are walked) and in slot order
/// within a node.
pub open spec fn conformity_post(g: GraphView, r: GraphResult<()>) -> bool {
    if forall|h: Seq<char>, k: int| !#[trigger] slot_malformed(g, h, k) {
        r is Ok
    } else {
        &&& r matches Err(GraphError::SaveFailed { reason })
        &&& *reason matches GraphError::ListOfErrors(es)
        &&& es@.len() > 0
        &&& forall|h: Seq<char>, k: int| #[trigger] slot_malformed(g, h, k) ==> reported_in(g, h, k, es@)
        &&& forall|i: int| 0 <= i < es@.len() ==> reports_malformed(g, #[trigger] es@[i])
        &&& exists|order: Seq<Seq<char>>| lists_nodes(g, order) && #[trigger] reports_each(g, malformed_slots(g, order), es@)
    }
}

/// Appends to `errs` a report for each malformed slot of `n`, whose
/// template is `t`.
fn check_node_slots(g: Ghost<GraphView>, n: &NodeInstance, t: &crate::model::NodeTemplate, errs: &mut Vec<GraphError>)
    requires
        g@.instances.dom().contains(n.instance_id@),
        g@.instances[n.instance_id@] == n@,
        t@ == node_template_of(g@, n.instance_id@),
        slots_have_templates(g@),
    ensures
        final(errs)@.len() >= old(errs)@.len(),
        final(errs)@.take(old(errs)@.len() as int) == old(errs)@,
        forall|k: int| #[trigger] slot_malformed(g@, n.instance_id@, k) ==> reported_in(g@, n.instance_id@, k, final(errs)@),
        forall|i: int| old(errs)@.len() <= i < final(errs)@.len() ==> reports_malformed(g@, #[trigger] final(errs)@[i]),
        reports_each(
            g@,
            malformed_in(g@, n.instance_id@, g@.instances[n.instance_id@].slots.len() as int),
            final(errs)@.skip(old(errs)@.len() as int),
        ),
{
    let ghost h = n.instance_id@;
    let ghost e0 = errs@;
    let m = n.slots.len();
    let mut k: usize = 0;
    proof {
        assert(errs@.take(e0.len() as int) =~= e0);
        assert(errs@.skip(e0.len() as int) =~= Seq::<GraphError>::empty());
    }
    while k < m
        invariant
            m == n.slots@.len(),
            g@.instances.dom().contains(h),
            g@.instances[h] == n@,
            h == n.instance_id@,
            e0 == old(errs)@,
            t@ == node_template_of(g@, h),
            slots_have_templates(g@),
            k <= m,
            errs@.len() >= e0.len(),
            errs@.take(e0.len() as int) == e0,
            forall|q: int| 0 <= q < k && #[trigger] slot_malformed(g@, h, q) ==> reported_in(g@, h, q, errs@),
            forall|i: int| e0.len() <= i < errs@.len() ==> reports_malformed(g@, #[trigger] errs@[i]),
            reports_each(g@, malformed_in(g@, h, k as int), errs@.skip(e0.len() as int)),
        decreases m - k,
    {
        proof {
            assert(n@.slots[k as int] == n.slots@[k as int]@);
        }
        let si = t.slot_template_index(n.slots[k].slot_template_id.as_str()).unwrap();
        let st = &t.slot_templates[si];
        let count = n.slots[k].connections.len();
        proof {
            assert(t@.slot_templates[si as int] == st@);
            assert(slot_template_at(g@, h, k as int) == st@);
            assert(n@.slots[k as int].connections.len() == count);
        }
        let too_many = match st.max_connections {
            Some(max_connections) => max_connections < count,
            None => false,
        };
        let ghost before = errs@;
        if st.min_connections > count || too_many {
            errs.push(
                GraphError::SlotMalformed {
                    template_name: t.name.clone(),
                    slot_name: st.name.clone(),
                    min: st.min_connections,
                    max: st.max_connections,
                    actual: count,
                },
            );
            proof {
                let i = before.len() as int;
                assert(reports_slot(g@, h, k as int, errs@[i]));
                assert(slot_malformed(g@, h, k as int));
                assert(errs@.skip(e0.len() as int) =~= before.skip(e0.len() as int).push(errs@[i]));
                assert(malformed_in(g@, h, k + 1) == malformed_in(g@, h, k as int).push((h, k as int)));
                assert forall|j: int| 0 <= j < errs@.skip(e0.len() as int).len() implies reports_slot(
                    g@,
                    malformed_in(g@, h, k + 1)[j].0,
                    malformed_in(g@, h, k + 1)[j].1,
                    #[trigger] errs@.skip(e0.len() as int)[j],
                ) by {
                    if j < before.skip(e0.len() as int).len() {
                        assert(errs@.skip(e0.len() as int)[j] == before.skip(e0.len() as int)[j]);
                        assert(malformed_in(g@, h, k + 1)[j] == malformed_in(g@, h, k as int)[j]);
                    }
                }
                assert(reports_malformed(g@, errs@[i]));
                assert(errs@.take(e0.len() as int) =~= before.take(e0.len() as int));
                assert forall|i2: int| e0.len() <= i2 < errs@.len() implies reports_malformed(g@, #[trigger] errs@[i2]) by {
                    if i2 < before.len() {
                        assert(errs@[i2] == before[i2]);
                    }
                }
                assert forall|q: int| 0 <= q < k + 1 && #[trigger] slot_malformed(g@, h, q) implies reported_in(g@, h, q, errs@) by {
                    if q < k {
                        let i2 = choose|i2: int| 0 <= i2 < before.len() && reports_slot(g@, h, q, #[trigger] before[i2]);
                        assert(errs@[i2] == before[i2]);
                    } else {
                        assert(reports_slot(g@, h, q, errs@[i]));
                    }
                }
            }
        } else {
            proof {
                assert(!slot_malformed(g@, h, k as int));
                assert(malformed_in(g@, h, k + 1) == malformed_in(g@, h, k as int));
            }
        }
        k = k + 1;
    }
}

/// Checks every slot of every node against its slot template's bounds.
pub fn check_conformity(graph: &Graph) -> (r: GraphResult<()>)
    requires
        graph.wf(),
        slots_have_templates(graph@),
    ensures
        conformity_post(graph@, r),
        connection_counts_within_bounds(graph@) ==> r is Ok,
        forall|h: Seq<char>, k: int| #[trigger] connection_count_outside_bounds(graph@, h, k) ==> r is Err,
{
    proof {
        graph.lemma_wf();
        lemma_bounds_decide_malformed(graph@);
    }
    let ghost g = graph@;
    let list = graph.instance_list();
    let ghost s = node_instance_views(list@);
    let ghost order = s.map_values(|v: NodeInstanceView| v.instance_id);
    let mut errs: Vec<GraphError> = Vec::new();
    let n = list.len();
    let mut i: usize = 0;
    while i < n
        invariant
            n == list@.len(),
            graph.wf(),
            g == graph@,
            s == node_instance_views(list@),
            distinct_keys(s, instance_key()),
            keyed(s, instance_key()) == g.instances,
            crate::graph::view_well_formed(g),
            slots_have_templates(g),
            i <= n,
            forall|j: int, k: int|
                0 <= j < i && #[trigger] slot_malformed(g, s[j].instance_id, k) ==> reported_in(g, s[j].instance_id, k, errs@),
            forall|e: int| 0 <= e < errs@.len() ==> reports_malformed(g, #[trigger] errs@[e]),
            order == s.map_values(|v: NodeInstanceView| v.instance_id),
            reports_each(g, malformed_slots(g, order.take(i as int)), errs@),
        decreases n - i,
    {
        let node = &list[i];
        proof {
            lemma_keyed_index(s, instance_key(), i as int);
            assert(s[i as int] == node@);
        }
        let template = graph.template(node.template_id.as_str()).unwrap();
        let ghost before = errs@;
        check_node_slots(Ghost(g), node, template, &mut errs);
        proof {
            let h = s[i as int].instance_id;
            let tail = errs@.skip(before.len() as int);
            assert(order.take(i + 1).drop_last() =~= order.take(i as int));
            assert(order.take(i + 1).last() == h);
            assert(g.instances[h] == s[i as int]);
            assert(errs@ =~= before + tail) by {
                assert(errs@.take(before.len() as int) == before);
            }
            lemma_reports_each_concat(
                g,
                malformed_slots(g, order.take(i as int)),
                before,
                malformed_in(g, h, g.instances[h].slots.len() as int),
                tail,
            );
            assert(malformed_slots(g, order.take(i + 1)) == malformed_slots(g, order.take(i as int)) + malformed_in(
                g,
                h,
                g.instances[h].slots.len() as int,
            ));
            assert forall|e: int| 0 <= e < errs@.len() implies reports_malformed(g, #[trigger] errs@[e]) by {
                if e < before.len() {
                    assert(errs@.take(before.len() as int)[e] == before[e]);
                }
            }
            assert forall|j: int, k: int|
                0 <= j < i + 1 && #[trigger] slot_malformed(g, s[j].instance_id, k) implies reported_in(g, s[j].instance_id, k, errs@) by {
                if j < i {
                    let e = choose|e: int| 0 <= e < before.len() && reports_slot(g, s[j].instance_id, k, #[trigger] before[e]);
                    assert(errs@.take(before.len() as int)[e] == before[e]);
                    assert(errs@[e] == before[e]);
                }
            }
        }
        i = i + 1;
    }
    proof {
        assert forall|h: Seq<char>, k: int| #[trigger] slot_malformed(g, h, k) implies reported_in(g, h, k, errs@) by {
            lemma_keyed_dom(s, instance_key(), h);
            let j = choose|j: int| 0 <= j < s.len() && (instance_key())(s[j]) == h;
            assert(s[j].instance_id == h);
        }
    }
    if errs.len() == 0 {
        proof {
            assert forall|h: Seq<char>, k: int| !#[trigger] slot_malformed(g, h, k) by {
                if slot_malformed(g, h, k) {
                    assert(reported_in(g, h, k, errs@));
                }
            }
        }
        return Ok(());
    }
    proof {
        assert(reports_malformed(g, errs@[0]));
        assert(order.take(n as int) =~= order);
        assert forall|h: Seq<char>| g.instances.dom().contains(h) <==> order.contains(h) by {
            lemma_keyed_dom(s, instance_key(), h);
            if order.contains(h) {
                let j = choose|j: int| 0 <= j < order.len() && order[j] == h;
                assert((instance_key())(s[j]) == h);
            }
            if g.instances.dom().contains(h) {
                let j = choose|j: int| 0 <= j < s.len() && (instance_key())(s[j]) == h;
                assert(order[j] == h);
            }
        }
        assert forall|a: int, b: int| 0 <= a < order.len() && 0 <= b < order.len() && a != b implies order[a] != order[b] by {
            assert((instance_key())(s[a]) != (instance_key())(s[b]));
        }
        assert(lists_nodes(g, order));
        assert(reports_each(g, malformed_slots(g, order), errs@));
    }
    Err(GraphError::SaveFailed { reason: Box::new(GraphError::ListOfErrors(errs)) })
}

/// A copy of the graph to keep, when every slot has between its minimum
/// and maximum number of connections; otherwise the failure that
/// `check_conformity` reports.
pub fn save(graph: &Graph) -> (r: GraphResult<Graph>)
    requires
        graph.wf(),
        slots_have_templates(graph@),
    ensures
        match r {
            Ok(copy) => {
                &&& forall|h: Seq<char>, k: int| !#[trigger] slot_malformed(graph@, h, k)
                &&& copy@ == graph@
                &&& copy.wf()
            },
            Err(e) => conformity_post(graph@, Err(e)),
        },
        connection_counts_within_bounds(graph@) ==> r is Ok,
        forall|h: Seq<char>, k: int| #[trigger] connection_count_outside_bounds(graph@, h, k) ==> r is Err,
{
    match check_conformity(graph) {
        Ok(()) => Ok(graph.clone()),
        Err(e) => Err(e),
    }
}

} // verus!
