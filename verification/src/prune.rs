//! Removing connections from a graph view: keeping the connections of each
//! slot that a predicate spares, and the facts that deletions rely on.
use vstd::prelude::*;
use crate::connect::retained_connections;
use crate::graph::{GraphView, with_slot_connections};
use crate::model::{ConnectionView, NodeInstanceView, SlotInstanceView};

verus! {

/// The connections of `cs` that satisfy `p`, in order.
pub open spec fn keep_where(cs: Seq<ConnectionView>, p: spec_fn(ConnectionView) -> bool) -> Seq<
    ConnectionView,
>
    decreases cs.len(),
{
    if cs.len() == 0 {
        Seq::empty()
    } else {
        let r = keep_where(cs.drop_last(), p);
        if p(cs.last()) {
            r.push(cs.last())
        } else {
            r
        }
    }
}

pub proof fn lemma_keep_where_ext(cs: Seq<ConnectionView>, p: spec_fn(ConnectionView) -> bool, q: spec_fn(ConnectionView) -> bool)
    requires
        forall|i: int| 0 <= i < cs.len() ==> p(#[trigger] cs[i]) == q(cs[i]),
    ensures
        keep_where(cs, p) == keep_where(cs, q),
    decreases cs.len(),
{
    if cs.len() > 0 {
        let t = cs.drop_last();
        assert forall|i: int| 0 <= i < t.len() implies p(#[trigger] t[i]) == q(t[i]) by {
            assert(t[i] == cs[i]);
        }
        lemma_keep_where_ext(t, p, q);
        assert(p(cs[cs.len() - 1]) == q(cs[cs.len() - 1]));
    }
}

pub proof fn lemma_keep_where_all(cs: Seq<ConnectionView>, p: spec_fn(ConnectionView) -> bool)
    requires
        forall|i: int| 0 <= i < cs.len() ==> p(#[trigger] cs[i]),
    ensures
        keep_where(cs, p) == cs,
    decreases cs.len(),
{
    if cs.len() > 0 {
        let t = cs.drop_last();
        assert forall|i: int| 0 <= i < t.len() implies p(#[trigger] t[i]) by {
            assert(t[i] == cs[i]);
        }
        lemma_keep_where_all(t, p);
        assert(p(cs[cs.len() - 1]));
        assert(t.push(cs.last()) =~= cs);
    }
}

pub proof fn lemma_keep_where_empty(cs: Seq<ConnectionView>, p: spec_fn(ConnectionView) -> bool)
    requires
        cs.len() == 0,
    ensures
        keep_where(cs, p) == cs,
{
    assert(cs =~= Seq::<ConnectionView>::empty());
}

/// The kept connections are connections of `cs` that satisfy `p`.
pub proof fn lemma_keep_where_subset(cs: Seq<ConnectionView>, p: spec_fn(ConnectionView) -> bool)
    ensures
        forall|i: int|
            0 <= i < keep_where(cs, p).len() ==> cs.contains(#[trigger] keep_where(cs, p)[i]) && p(
                keep_where(cs, p)[i],
            ),
        forall|i: int| 0 <= i < cs.len() && p(#[trigger] cs[i]) ==> keep_where(cs, p).contains(cs[i]),
    decreases cs.len(),
{
    if cs.len() > 0 {
        let t = cs.drop_last();
        let r = keep_where(t, p);
        lemma_keep_where_subset(t, p);
        assert forall|i: int| 0 <= i < r.len() implies cs.contains(#[trigger] r[i]) by {
            let j = choose|j: int| 0 <= j < t.len() && t[j] == r[i];
            assert(cs[j] == t[j]);
        }
        assert(cs[cs.len() - 1] == cs.last());
        assert forall|i: int| 0 <= i < cs.len() && p(#[trigger] cs[i]) implies keep_where(cs, p).contains(cs[i]) by {
            if i < t.len() {
                assert(t[i] == cs[i]);
                assert(r.contains(t[i]));
                let j = choose|j: int| 0 <= j < r.len() && r[j] == t[i];
                if p(cs.last()) {
                    assert(keep_where(cs, p)[j] == r[j]);
                }
            } else {
                assert(keep_where(cs, p)[keep_where(cs, p).len() - 1] == cs[i]);
            }
        }
    }
}

/// Retaining after keeping is keeping by both conditions.
pub proof fn lemma_retained_of_kept(
    cs: Seq<ConnectionView>,
    p: spec_fn(ConnectionView) -> bool,
    q: spec_fn(ConnectionView) -> bool,
    tn: Seq<char>,
    ts: Seq<char>,
)
    requires
        forall|i: int|
            0 <= i < cs.len() ==> q(#[trigger] cs[i]) == (p(cs[i]) && !(cs[i].target_node_id == tn
                && cs[i].target_slot_template_id == ts)),
    ensures
        retained_connections(keep_where(cs, p), tn, ts) == keep_where(cs, q),
    decreases cs.len(),
{
    if cs.len() > 0 {
        let t = cs.drop_last();
        assert forall|i: int|
            0 <= i < t.len() implies q(#[trigger] t[i]) == (p(t[i]) && !(t[i].target_node_id == tn
            && t[i].target_slot_template_id == ts)) by {
            assert(t[i] == cs[i]);
        }
        lemma_retained_of_kept(t, p, q, tn, ts);
        let l = cs.last();
        assert(l == cs[cs.len() - 1]);
        if p(l) {
            let r = keep_where(t, p);
            assert(r.push(l).drop_last() =~= r);
        }
    }
}

/// `n` with the connections of each slot kept when `drop` spares them;
/// `drop` sees the node id, the slot template id, and the connection.
pub open spec fn prune_instance(
    n: NodeInstanceView,
    drop: spec_fn(Seq<char>, Seq<char>, ConnectionView) -> bool,
) -> NodeInstanceView {
    NodeInstanceView {
        slots: Seq::new(
            n.slots.len(),
            |k: int|
                SlotInstanceView {
                    connections: keep_where(
                        n.slots[k].connections,
                        |x: ConnectionView| !drop(n.instance_id, n.slots[k].slot_template_id, x),
                    ),
                    ..n.slots[k]
                },
        ),
        ..n
    }
}

/// `g` with the connections that `drop` singles out removed.
pub open spec fn prune(g: GraphView, drop: spec_fn(Seq<char>, Seq<char>, ConnectionView) -> bool) -> GraphView {
    GraphView {
        templates: g.templates,
        instances: g.instances.map_values(|n: NodeInstanceView| prune_instance(n, drop)),
    }
}

/// Pruning by a predicate that spares everything changes nothing.
pub proof fn lemma_prune_nothing(g: GraphView, drop: spec_fn(Seq<char>, Seq<char>, ConnectionView) -> bool)
    requires
        forall|h: Seq<char>, s: Seq<char>, x: ConnectionView| !#[trigger] drop(h, s, x),
    ensures
        prune(g, drop) == g,
{
    assert forall|h: Seq<char>| #[trigger] g.instances.dom().contains(h) implies prune(g, drop).instances[h] == g.instances[h] by {
        let n = g.instances[h];
        let pn = prune_instance(n, drop);
        assert forall|k: int| 0 <= k < n.slots.len() implies #[trigger] pn.slots[k] == n.slots[k] by {
            lemma_keep_where_all(n.slots[k].connections, |x: ConnectionView| !drop(n.instance_id, n.slots[k].slot_template_id, x));
        }
        assert(pn.slots =~= n.slots);
    }
    assert(prune(g, drop).instances =~= g.instances);
}

/// Two predicates that agree on every connection of `n` prune it alike.
pub proof fn lemma_prune_instance_ext(
    n: NodeInstanceView,
    d1: spec_fn(Seq<char>, Seq<char>, ConnectionView) -> bool,
    d2: spec_fn(Seq<char>, Seq<char>, ConnectionView) -> bool,
)
    requires
        forall|k: int, i: int|
            0 <= k < n.slots.len() && 0 <= i < n.slots[k].connections.len() ==> d1(
                n.instance_id,
                n.slots[k].slot_template_id,
                #[trigger] n.slots[k].connections[i],
            ) == d2(n.instance_id, n.slots[k].slot_template_id, n.slots[k].connections[i]),
    ensures
        prune_instance(n, d1) == prune_instance(n, d2),
{
    let a = prune_instance(n, d1);
    let b = prune_instance(n, d2);
    assert forall|k: int| 0 <= k < n.slots.len() implies #[trigger] a.slots[k] == b.slots[k] by {
        let cs = n.slots[k].connections;
        let p = |x: ConnectionView| !d1(n.instance_id, n.slots[k].slot_template_id, x);
        let q = |x: ConnectionView| !d2(n.instance_id, n.slots[k].slot_template_id, x);
        assert forall|i: int| 0 <= i < cs.len() implies p(#[trigger] cs[i]) == q(cs[i]) by {
            assert(d1(n.instance_id, n.slots[k].slot_template_id, n.slots[k].connections[i]) == d2(n.instance_id, n.slots[k].slot_template_id, n.slots[k].connections[i]));
        }
        lemma_keep_where_ext(cs, p, q);
    }
    assert(a.slots =~= b.slots);
}

/// Keeping twice is keeping by both conditions.
pub proof fn lemma_keep_where_twice(
    cs: Seq<ConnectionView>,
    p: spec_fn(ConnectionView) -> bool,
    q: spec_fn(ConnectionView) -> bool,
    pq: spec_fn(ConnectionView) -> bool,
)
    requires
        forall|i: int| 0 <= i < cs.len() ==> pq(#[trigger] cs[i]) == (p(cs[i]) && q(cs[i])),
    ensures
        keep_where(keep_where(cs, p), q) == keep_where(cs, pq),
    decreases cs.len(),
{
    if cs.len() > 0 {
        let t = cs.drop_last();
        assert forall|i: int| 0 <= i < t.len() implies pq(#[trigger] t[i]) == (p(t[i]) && q(t[i])) by {
            assert(t[i] == cs[i]);
        }
        lemma_keep_where_twice(t, p, q, pq);
        let l = cs.last();
        assert(l == cs[cs.len() - 1]);
        if p(l) {
            let r = keep_where(t, p);
            assert(r.push(l).drop_last() =~= r);
        }
    }
}

/// Pruning twice is pruning by either predicate.
pub proof fn lemma_prune_twice(
    g: GraphView,
    d1: spec_fn(Seq<char>, Seq<char>, ConnectionView) -> bool,
    d2: spec_fn(Seq<char>, Seq<char>, ConnectionView) -> bool,
)
    ensures
        prune(prune(g, d1), d2) == prune(
            g,
            |h: Seq<char>, s: Seq<char>, x: ConnectionView| d1(h, s, x) || d2(h, s, x),
        ),
{
    let d = |h: Seq<char>, s: Seq<char>, x: ConnectionView| d1(h, s, x) || d2(h, s, x);
    let a = prune(prune(g, d1), d2);
    let b = prune(g, d);
    assert forall|h: Seq<char>| #[trigger] g.instances.dom().contains(h) implies a.instances[h] == b.instances[h] by {
        let n = g.instances[h];
        let an = a.instances[h];
        let bn = b.instances[h];
        assert forall|k: int| 0 <= k < n.slots.len() implies #[trigger] an.slots[k] == bn.slots[k] by {
            let sk = n.slots[k].slot_template_id;
            let cs = n.slots[k].connections;
            lemma_keep_where_twice(
                cs,
                |x: ConnectionView| !d1(n.instance_id, sk, x),
                |x: ConnectionView| !d2(n.instance_id, sk, x),
                |x: ConnectionView| !d(n.instance_id, sk, x),
            );
        }
        assert(an.slots =~= bn.slots);
    }
    assert(a.instances =~= b.instances);
}

/// Pruned slots hold only connections the slot held before.
pub proof fn lemma_prune_subset(
    g: GraphView,
    d: spec_fn(Seq<char>, Seq<char>, ConnectionView) -> bool,
    h: Seq<char>,
    k: int,
    i: int,
)
    requires
        g.instances.dom().contains(h),
        0 <= k < g.instances[h].slots.len(),
        0 <= i < prune(g, d).instances[h].slots[k].connections.len(),
    ensures
        g.instances[h].slots[k].connections.contains(prune(g, d).instances[h].slots[k].connections[i]),
        !d(h, g.instances[h].slots[k].slot_template_id, prune(g, d).instances[h].slots[k].connections[i]) || g.instances[h].instance_id != h,
{
    let n = g.instances[h];
    let p = |x: ConnectionView| !d(n.instance_id, n.slots[k].slot_template_id, x);
    lemma_keep_where_subset(n.slots[k].connections, p);
}

} // verus!
