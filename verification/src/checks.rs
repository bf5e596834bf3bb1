//! Tests of the conditions that some graph operations ask of their callers,
//! for callers that cannot prove them.
use vstd::prelude::*;
use crate::connect::{node_template_of, slot_known};
use crate::deletion::{incoming_hosts_known, slot_clearing_ready, slots_have_templates};
use crate::graph::{instance_key, node_instance_views, Graph};
use crate::hierarchy::targets_known;
use crate::model::{connection_views, slot_template_by_id, Connection};
use crate::pointer::{clicked_slot_known, PointerState};
use crate::seqs::{distinct_keys, keyed, lemma_keyed_dom, lemma_keyed_index};

verus! {

/// Whether some connection of `conns` ends at node `tn`.
fn some_connection_to(conns: &Vec<Connection>, tn: &str) -> (r: bool)
    ensures
        r == exists|i: int| 0 <= i < conns@.len() && (#[trigger] connection_views(conns@)[i]).target_node_id == tn@,
{
    let n = conns.len();
    let mut i: usize = 0;
    while i < n
        invariant
            n == conns@.len(),
            i <= n,
            forall|j: int| 0 <= j < i ==> (#[trigger] connection_views(conns@)[j]).target_node_id != tn@,
        decreases n - i,
    {
        proof {
            assert(connection_views(conns@)[i as int] == conns@[i as int]@);
        }
        if crate::text::str_eq(conns[i].target_node_id.as_str(), tn) {
            return true;
        }
        i = i + 1;
    }
    false
}

impl Graph {
    /// Whether node `node_id` exists and both it and its template have slot
    /// `slot_template_id`.
    pub fn slot_is_known(&self, node_id: &str, slot_template_id: &str) -> (r: bool)
        requires
            self.wf(),
        ensures
            r == slot_known(self@, node_id@, slot_template_id@),
    {
        let node = match self.instance(node_id) {
            Some(node) => node,
            None => {
                return false;
            },
        };
        let template = match self.template(node.template_id.as_str()) {
            Some(t) => t,
            None => {
                return false;
            },
        };
        node.slot_index(slot_template_id).is_some() && template.slot_template_index(slot_template_id).is_some()
    }

    /// Whether the slot of every node has a slot template in its node's
    /// template.
    pub fn slots_match_templates(&self) -> (r: bool)
        requires
            self.wf(),
        ensures
            r == slots_have_templates(self@),
    {
        proof {
            self.lemma_wf();
        }
        let ghost g = self@;
        let list = self.instance_list();
        let ghost s = node_instance_views(list@);
        let n = list.len();
        let mut i: usize = 0;
        while i < n
            invariant
                n == list@.len(),
                s == node_instance_views(list@),
                distinct_keys(s, instance_key()),
                keyed(s, instance_key()) == g.instances,
                self.wf(),
                g == self@,
                crate::graph::view_well_formed(g),
                i <= n,
                forall|j: int, k: int|
                    #![trigger s[j].slots[k]]
                    0 <= j < i && 0 <= k < s[j].slots.len() ==> slot_template_by_id(
                        node_template_of(g, s[j].instance_id),
                        s[j].slots[k].slot_template_id,
                    ) is Some,
            decreases n - i,
        {
            let node = &list[i];
            proof {
                lemma_keyed_index(s, instance_key(), i as int);
                assert(node@ == s[i as int]);
                assert(g.instances[s[i as int].instance_id] == s[i as int]);
            }
            let template = match self.template(node.template_id.as_str()) {
                Some(t) => t,
                None => {
                    return false;
                },
            };
            let m = node.slots.len();
            let mut k: usize = 0;
            while k < m
                invariant
                    n == list@.len(),
                    s == node_instance_views(list@),
                    g == self@,
                    i < n,
                    node@ == s[i as int],
                    g.instances.dom().contains(s[i as int].instance_id),
                    g.instances[s[i as int].instance_id] == s[i as int],
                    template@ == node_template_of(g, s[i as int].instance_id),
                    m == node.slots@.len(),
                    k <= m,
                    forall|q: int| 0 <= q < k ==> slot_template_by_id(template@, #[trigger] s[i as int].slots[q].slot_template_id) is Some,
                decreases m - k,
            {
                proof {
                    assert(node.slots@[k as int]@ == s[i as int].slots[k as int]);
                }
                if template.slot_template_index(node.slots[k].slot_template_id.as_str()).is_none() {
                    proof {
                        let h = s[i as int].instance_id;
                        assert(g.instances[h].slots[k as int] == s[i as int].slots[k as int]);
                        assert(slot_template_by_id(node_template_of(g, h), g.instances[h].slots[k as int].slot_template_id) is None);
                    }
                    return false;
                }
                k = k + 1;
            }
            i = i + 1;
        }
        proof {
            assert forall|h: Seq<char>, k: int|
                g.instances.dom().contains(h) && 0 <= k < g.instances[h].slots.len() implies slot_template_by_id(
                node_template_of(g, h),
                #[trigger] g.instances[h].slots[k].slot_template_id,
            ) is Some by {
                lemma_keyed_dom(s, instance_key(), h);
                let j = choose|j: int| 0 <= j < s.len() && (instance_key())(s[j]) == h;
                lemma_keyed_index(s, instance_key(), j);
                assert(g.instances[h] == s[j]);
                assert(s[j].slots[k] == g.instances[h].slots[k]);
            }
        }
        true
    }

    /// Whether every slot that holds a connection ending at node `node_id`
    /// has its slot template in its node's template.
    pub fn incoming_hosts_are_known(&self, node_id: &str) -> (r: bool)
        requires
            self.wf(),
        ensures
            r == incoming_hosts_known(self@, node_id@),
    {
        proof {
            self.lemma_wf();
        }
        let ghost g = self@;
        let ghost tn = node_id@;
        let list = self.instance_list();
        let ghost s = node_instance_views(list@);
        let n = list.len();
        let mut i: usize = 0;
        while i < n
            invariant
                n == list@.len(),
                s == node_instance_views(list@),
                distinct_keys(s, instance_key()),
                keyed(s, instance_key()) == g.instances,
                self.wf(),
                g == self@,
                tn == node_id@,
                crate::graph::view_well_formed(g),
                i <= n,
                forall|j: int, k: int, c: int|
                    0 <= j < i && 0 <= k < s[j].slots.len() && 0 <= c < s[j].slots[k].connections.len()
                        && (#[trigger] s[j].slots[k].connections[c]).target_node_id == tn ==> slot_template_by_id(
                        node_template_of(g, s[j].instance_id),
                        s[j].slots[k].slot_template_id,
                    ) is Some,
            decreases n - i,
        {
            let node = &list[i];
            proof {
                lemma_keyed_index(s, instance_key(), i as int);
                assert(node@ == s[i as int]);
                assert(g.instances[s[i as int].instance_id] == s[i as int]);
            }
            let m = node.slots.len();
            let mut k: usize = 0;
            while k < m
                invariant
                    n == list@.len(),
                    s == node_instance_views(list@),
                    g == self@,
                    self.wf(),
                    crate::graph::view_well_formed(g),
                    tn == node_id@,
                    i < n,
                    node@ == s[i as int],
                    g.instances.dom().contains(s[i as int].instance_id),
                    g.instances[s[i as int].instance_id] == s[i as int],
                    m == node.slots@.len(),
                    k <= m,
                    forall|q: int, c: int|
                        0 <= q < k && 0 <= c < s[i as int].slots[q].connections.len()
                            && (#[trigger] s[i as int].slots[q].connections[c]).target_node_id == tn ==> slot_template_by_id(
                            node_template_of(g, s[i as int].instance_id),
                            s[i as int].slots[q].slot_template_id,
                        ) is Some,
                decreases m - k,
            {
                proof {
                    assert(node.slots@[k as int]@ == s[i as int].slots[k as int]);
                    assert(s[i as int].slots[k as int].connections == connection_views(node.slots@[k as int].connections@));
                }
                if some_connection_to(&node.slots[k].connections, node_id) {
                    let template = match self.template(node.template_id.as_str()) {
                        Some(t) => t,
                        None => {
                            proof {
                                let h = s[i as int].instance_id;
                                assert(g.instances.dom().contains(h));
                                assert(crate::graph::instance_well_formed(g, g.instances[h]));
                                assert(node@.template_id == g.instances[h].template_id);
                            }
                            return false;
                        },
                    };
                    if template.slot_template_index(node.slots[k].slot_template_id.as_str()).is_none() {
                        proof {
                            let h = s[i as int].instance_id;
                            let c = choose|c: int| 0 <= c < node.slots@[k as int].connections@.len()
                                && (#[trigger] connection_views(node.slots@[k as int].connections@)[c]).target_node_id == tn;
                            assert(g.instances[h].slots[k as int] == s[i as int].slots[k as int]);
                            assert(g.instances[h].slots[k as int].connections[c].target_node_id == tn);
                            assert(slot_template_by_id(node_template_of(g, h), g.instances[h].slots[k as int].slot_template_id) is None);
                        }
                        return false;
                    }
                }
                k = k + 1;
            }
            i = i + 1;
        }
        proof {
            assert forall|h: Seq<char>, k: int, c: int|
                g.instances.dom().contains(h) && 0 <= k < g.instances[h].slots.len() && 0 <= c
                    < g.instances[h].slots[k].connections.len()
                    && (#[trigger] g.instances[h].slots[k].connections[c]).target_node_id == tn
                    implies slot_template_by_id(node_template_of(g, h), g.instances[h].slots[k].slot_template_id) is Some by {
                lemma_keyed_dom(s, instance_key(), h);
                let j = choose|j: int| 0 <= j < s.len() && (instance_key())(s[j]) == h;
                lemma_keyed_index(s, instance_key(), j);
                assert(g.instances[h] == s[j]);
                assert(s[j].slots[k].connections[c] == g.instances[h].slots[k].connections[c]);
            }
        }
        true
    }

    /// Whether clearing slot `slot_template_id` of node `node_id` finds what
    /// it needs: for an incoming slot, every slot holding a connection to the
    /// node has its slot template.
    pub fn slot_clearing_is_ready(&self, node_id: &str, slot_template_id: &str) -> (r: bool)
        requires
            self.wf(),
        ensures
            r == slot_clearing_ready(self@, node_id@, slot_template_id@),
    {
        match self.get_slot_capabilities(node_id, slot_template_id) {
            Some(caps) => match caps.template.slot_type {
                crate::model::SlotType::Incoming => self.incoming_hosts_are_known(node_id),
                crate::model::SlotType::Outgoing => true,
            },
            None => true,
        }
    }

    /// Whether every connection leads to a node of the graph.
    pub fn connection_targets_known(&self) -> (r: bool)
        requires
            self.wf(),
        ensures
            r == targets_known(self@),
    {
        let ghost g = self@;
        let list = self.instance_list();
        let ghost s = node_instance_views(list@);
        let n = list.len();
        let mut i: usize = 0;
        while i < n
            invariant
                n == list@.len(),
                s == node_instance_views(list@),
                distinct_keys(s, instance_key()),
                keyed(s, instance_key()) == g.instances,
                self.wf(),
                g == self@,
                i <= n,
                forall|j: int, k: int, c: int|
                    0 <= j < i && 0 <= k < s[j].slots.len() && 0 <= c < s[j].slots[k].connections.len()
                        ==> g.instances.dom().contains((#[trigger] s[j].slots[k].connections[c]).target_node_id),
            decreases n - i,
        {
            let node = &list[i];
            proof {
                assert(node@ == s[i as int]);
                lemma_keyed_index(s, instance_key(), i as int);
            }
            let m = node.slots.len();
            let mut k: usize = 0;
            while k < m
                invariant
                    n == list@.len(),
                    s == node_instance_views(list@),
                    keyed(s, instance_key()) == g.instances,
                    self.wf(),
                    g == self@,
                    i < n,
                    node@ == s[i as int],
                    g.instances.dom().contains(s[i as int].instance_id),
                    g.instances[s[i as int].instance_id] == s[i as int],
                    m == node.slots@.len(),
                    k <= m,
                    forall|q: int, c: int|
                        0 <= q < k && 0 <= c < s[i as int].slots[q].connections.len() ==> g.instances.dom().contains(
                            (#[trigger] s[i as int].slots[q].connections[c]).target_node_id,
                        ),
                decreases m - k,
            {
                let slot = &node.slots[k];
                proof {
                    assert(slot@ == s[i as int].slots[k as int]);
                }
                let cn = slot.connections.len();
                let mut c: usize = 0;
                while c < cn
                    invariant
                        s == node_instance_views(list@),
                        self.wf(),
                        g == self@,
                        i < n,
                        n == list@.len(),
                        k < m,
                        m == node.slots@.len(),
                        node@ == s[i as int],
                        g.instances.dom().contains(s[i as int].instance_id),
                        g.instances[s[i as int].instance_id] == s[i as int],
                        slot@ == s[i as int].slots[k as int],
                        cn == slot.connections@.len(),
                        c <= cn,
                        forall|d: int|
                            0 <= d < c ==> g.instances.dom().contains((#[trigger] s[i as int].slots[k as int].connections[d]).target_node_id),
                    decreases cn - c,
                {
                    proof {
                        assert(slot.connections@[c as int]@ == s[i as int].slots[k as int].connections[c as int]);
                    }
                    if self.instance(slot.connections[c].target_node_id.as_str()).is_none() {
                        proof {
                            let h = s[i as int].instance_id;
                            assert(g.instances[h].slots[k as int].connections[c as int] == s[i as int].slots[k as int].connections[c as int]);
                        }
                        return false;
                    }
                    c = c + 1;
                }
                k = k + 1;
            }
            i = i + 1;
        }
        proof {
            assert forall|h: Seq<char>, k: int, c: int|
                g.instances.dom().contains(h) && 0 <= k < g.instances[h].slots.len() && 0 <= c
                    < g.instances[h].slots[k].connections.len() implies g.instances.dom().contains(
                (#[trigger] g.instances[h].slots[k].connections[c]).target_node_id,
            ) by {
                lemma_keyed_dom(s, instance_key(), h);
                let j = choose|j: int| 0 <= j < s.len() && (instance_key())(s[j]) == h;
                lemma_keyed_index(s, instance_key(), j);
                assert(g.instances[h] == s[j]);
                assert(s[j].slots[k].connections[c] == g.instances[h].slots[k].connections[c]);
            }
        }
        true
    }
}

impl PointerState {
    /// Whether a slot being clicked names a slot of its node, where the node
    /// exists.
    pub fn clicked_slot_ok(&self, graph: &Graph) -> (r: bool)
        requires
            graph.wf(),
        ensures
            r == clicked_slot_known(*self, graph@),
    {
        match &self.click_initiated_on_slot {
            Some((n, s)) => match graph.instance(n.as_str()) {
                Some(node) => node.slot_index(s.as_str()).is_some(),
                None => true,
            },
            None => true,
        }
    }
}

} // verus!
