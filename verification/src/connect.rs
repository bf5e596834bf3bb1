//! Creating and deleting connections, and the locks that guard them.
use vstd::prelude::*;
use vstd::string::*;
use crate::errors::{GraphError, GraphResult};
use crate::graph::{with_slot_connections, Graph, GraphView};
use crate::model::{
    connection_views, slot_index, slot_template_by_id, string_views, Connection, ConnectionView,
    NodeInstance, NodeTemplateView, SlotInstance, SlotInstanceView, SlotTemplateView,
};
use crate::queries::{slot_caps, NodeTemplateInfo};
use crate::text::str_eq;

verus! {

pub open spec fn node_template_of(g: GraphView, node: Seq<char>) -> NodeTemplateView {
    g.templates[g.instances[node].template_id]
}

/// The slot template with id `sid` in the template of node `node`.
pub open spec fn slot_template_of(g: GraphView, node: Seq<char>, sid: Seq<char>) -> SlotTemplateView {
    slot_template_by_id(node_template_of(g, node), sid)->0
}

/// The node's template lets its slots change and the node lets its
/// connections change.
pub open spec fn node_modifiable(g: GraphView, node: Seq<char>) -> bool {
    node_template_of(g, node).can_modify_slots && g.instances[node].can_modify_connections
}

/// The error that refuses changes to node `node`, when it is locked.
pub open spec fn node_lock_error(g: GraphView, node: Seq<char>, e: GraphError) -> bool {
    if !node_template_of(g, node).can_modify_slots {
        e matches GraphError::NodeTemplateLocked { name } && name@ == node_template_of(g, node).name
    } else {
        e is NodeInstanceLocked
    }
}

/// Slot template `sid` of node `node` lets connections change, the node's
/// first slot is modifiable, and the node itself is modifiable. The slot
/// instance consulted is the node's first one whatever `sid` is: the lookup
/// the check makes compares each slot's template id with itself, so it stops
/// at the first slot. That is how the check behaves, and nothing documents
/// another intent; a lock on any other slot instance is not consulted.
pub open spec fn slot_modifiable(g: GraphView, node: Seq<char>, sid: Seq<char>) -> bool {
    &&& slot_template_of(g, node, sid).can_modify_connections
    &&& g.instances[node].slots[0].can_modify
    &&& node_modifiable(g, node)
}

/// The error that refuses changes to slot `sid` of node `node`, when it is
/// locked.
pub open spec fn slot_lock_error(g: GraphView, node: Seq<char>, sid: Seq<char>, e: GraphError) -> bool {
    if !slot_template_of(g, node, sid).can_modify_connections {
        e matches GraphError::SlotTemplateLocked { name } && name@ == slot_template_of(
            g,
            node,
            sid,
        ).name
    } else if !g.instances[node].slots[0].can_modify {
        e is SlotInstanceLocked
    } else {
        node_lock_error(g, node, e)
    }
}

/// Node `node` exists, has a slot made from `sid`, and its template has a
/// slot template with id `sid`.
pub open spec fn slot_known(g: GraphView, node: Seq<char>, sid: Seq<char>) -> bool {
    &&& g.instances.dom().contains(node)
    &&& g.templates.dom().contains(g.instances[node].template_id)
    &&& slot_index(g.instances[node], sid) is Some
    &&& slot_template_by_id(node_template_of(g, node), sid) is Some
}

/// A connection may be deleted: it is not locked and its host slot is
/// modifiable.
pub open spec fn connection_deletable(g: GraphView, c: ConnectionView) -> bool {
    c.can_delete && slot_modifiable(g, c.host_node_id, c.host_slot_template_id)
}

/// The error that refuses deleting connection `c` when it is locked.
pub open spec fn connection_lock_error(g: GraphView, c: Connection, e: GraphError) -> bool {
    e matches GraphError::ConnectionDeletionFailed { connection, reason } && connection == c && if !c.can_delete {
        *reason is ConnectionLocked
    } else {
        slot_lock_error(g, c@.host_node_id, c@.host_slot_template_id, *reason)
    }
}

/// The connections of `cs` that do not end at slot `ts` of node `tn`.
pub open spec fn retained_connections(cs: Seq<ConnectionView>, tn: Seq<char>, ts: Seq<char>) -> Seq<
    ConnectionView,
>
    decreases cs.len(),
{
    if cs.len() == 0 {
        Seq::empty()
    } else {
        let r = retained_connections(cs.drop_last(), tn, ts);
        let l = cs.last();
        if l.target_node_id == tn && l.target_slot_template_id == ts {
            r
        } else {
            r.push(l)
        }
    }
}

pub proof fn lemma_retained_subset(cs: Seq<ConnectionView>, tn: Seq<char>, ts: Seq<char>)
    ensures
        forall|i: int| 0 <= i < retained_connections(cs, tn, ts).len() ==> {
            &&& cs.contains(#[trigger] retained_connections(cs, tn, ts)[i])
            &&& !(retained_connections(cs, tn, ts)[i].target_node_id == tn
                && retained_connections(cs, tn, ts)[i].target_slot_template_id == ts)
        },
        retained_connections(cs, tn, ts).len() <= cs.len(),
    decreases cs.len(),
{
    if cs.len() > 0 {
        let t = cs.drop_last();
        lemma_retained_subset(t, tn, ts);
        let r = retained_connections(t, tn, ts);
        assert forall|i: int| 0 <= i < r.len() implies cs.contains(#[trigger] r[i]) by {
            let j = choose|j: int| 0 <= j < t.len() && t[j] == r[i];
            assert(cs[j] == t[j]);
        }
        assert(cs[cs.len() - 1] == cs.last());
    }
}

/// The reason `is_valid_connection` gives for refusing `c`, if it does.
pub open spec fn connection_refusal(g: GraphView, c: ConnectionView) -> Option<Seq<char>> {
    let (st, si) = slot_caps(g, c.host_node_id, c.host_slot_template_id)->0;
    let target = g.templates[g.instances[c.target_node_id].template_id];
    let below_max = match st.max_connections {
        Some(m) => si.connections.len() < m,
        None => si.connections.len() < usize::MAX,
    };
    let already = exists|j: int|
        0 <= j < si.connections.len() && (#[trigger] si.connections[j]).target_node_id
            == c.target_node_id && si.connections[j].target_slot_template_id
            == c.target_slot_template_id;
    if !below_max {
        Some("Slot's max length is reached"@)
    } else if already {
        Some("Connection alrady exists"@)
    } else if !st.allowed_connections.contains(target.template_id) {
        Some("This slot type cannot connect to the attempted node template"@)
    } else {
        None
    }
}

/// Whether `v` holds a string equal to `s`.
pub fn contains_string(v: &Vec<String>, s: &String) -> (r: bool)
    ensures
        r == string_views(v@).contains(s@),
{
    let n = v.len();
    let mut i: usize = 0;
    while i < n
        invariant
            n == v@.len(),
            i <= n,
            forall|j: int| 0 <= j < i ==> v@[j]@ != s@,
        decreases n - i,
    {
        if v[i] == *s {
            proof {
                assert(string_views(v@)[i as int] == s@);
            }
            return true;
        }
        i = i + 1;
    }
    proof {
        if string_views(v@).contains(s@) {
            let j = choose|j: int| 0 <= j < string_views(v@).len() && string_views(v@)[j] == s@;
            assert(v@[j]@ == s@);
        }
    }
    false
}

/// What `connect_slots` does: `old` and `new` are the graph before and after,
/// `c` the proposed connection and `r` the result.
pub open spec fn connect_post(old: GraphView, new: GraphView, c: Connection, r: GraphResult<()>) -> bool {
    let host = c@.host_node_id;
    let sid = c@.host_slot_template_id;
    let t = node_template_of(old, host);
    let st = slot_template_of(old, host, sid);
    let failed_with = |inner: spec_fn(GraphError) -> bool|
        r matches Err(GraphError::ConnectionCreationFailed { node_template_name, slot_template_name, reason })
            && node_template_name@ == t.name && slot_template_name@ == st.name && inner(*reason)
            && new == old;
    match connection_refusal(old, c@) {
        Some(msg) => failed_with(
            |e: GraphError|
                e matches GraphError::InvalidConnection { connection, reason } && connection == c
                    && reason@ == msg,
        ),
        None => if !node_modifiable(old, host) {
            failed_with(|e: GraphError| node_lock_error(old, host, e))
        } else if !st.can_modify_connections {
            failed_with(
                |e: GraphError| e matches GraphError::SlotTemplateLocked { name } && name@ == st.name,
            )
        } else {
            let k = slot_index(old.instances[host], sid)->0;
            &&& r is Ok
            &&& new.templates == old.templates
            &&& new.instances == old.instances.insert(
                host,
                with_slot_connections(
                    old.instances[host],
                    k,
                    old.instances[host].slots[k].connections.push(c@),
                ),
            )
        },
    }
}

/// What `delete_connection` does.
pub open spec fn delete_connection_post(
    old: GraphView,
    new: GraphView,
    c: Connection,
    r: GraphResult<()>,
) -> bool {
    let host = c@.host_node_id;
    if !connection_deletable(old, c@) {
        &&& r matches Err(GraphError::ConnectionDeletionFailed { connection, reason })
        &&& connection == c
        &&& connection_lock_error(old, c, *reason)
        &&& new == old
    } else {
        let k = slot_index(old.instances[host], c@.host_slot_template_id)->0;
        &&& r is Ok
        &&& new.templates == old.templates
        &&& new.instances == old.instances.insert(
            host,
            with_slot_connections(
                old.instances[host],
                k,
                retained_connections(
                    old.instances[host].slots[k].connections,
                    c@.target_node_id,
                    c@.target_slot_template_id,
                ),
            ),
        )
    }
}

/// The connections of `conns` that do not end at slot `ts` of node `tn`, in order.
pub fn retain_connections(conns: &Vec<Connection>, tn: &String, ts: &String) -> (r: Vec<Connection>)
    ensures
        connection_views(r@) == retained_connections(connection_views(conns@), tn@, ts@),
{
    let ghost cv = connection_views(conns@);
    let mut r: Vec<Connection> = Vec::new();
    let n = conns.len();
    let mut i: usize = 0;
    proof {
        assert(connection_views(r@) =~= retained_connections(cv.take(0), tn@, ts@));
    }
    while i < n
        invariant
            n == conns@.len(),
            cv == connection_views(conns@),
            i <= n,
            connection_views(r@) == retained_connections(cv.take(i as int), tn@, ts@),
        decreases n - i,
    {
        let ghost before = r@;
        proof {
            assert(cv.take(i + 1).drop_last() =~= cv.take(i as int));
            assert(cv.take(i + 1).last() == conns@[i as int]@);
        }
        if !(conns[i].target_node_id == *tn && conns[i].target_slot_template_id == *ts) {
            r.push(conns[i].clone());
            proof {
                assert(connection_views(r@) =~= connection_views(before).push(conns@[i as int]@));
            }
        }
        i = i + 1;
    }
    proof {
        assert(cv.take(n as int) =~= cv);
    }
    r
}

/// Whether some connection of `conns` ends at slot `ts` of node `tn`.
pub fn has_connection_to(conns: &Vec<Connection>, tn: &String, ts: &String) -> (r: bool)
    ensures
        r == exists|j: int|
            0 <= j < connection_views(conns@).len() && (#[trigger] connection_views(
                conns@,
            )[j]).target_node_id == tn@ && connection_views(conns@)[j].target_slot_template_id
                == ts@,
{
    let n = conns.len();
    let mut j: usize = 0;
    while j < n
        invariant
            n == conns@.len(),
            j <= n,
            forall|q: int|
                0 <= q < j ==> !(conns@[q].target_node_id@ == tn@
                    && conns@[q].target_slot_template_id@ == ts@),
        decreases n - j,
    {
        if conns[j].target_node_id == *tn && conns[j].target_slot_template_id == *ts {
            proof {
                assert(connection_views(conns@)[j as int] == conns@[j as int]@);
            }
            return true;
        }
        j = j + 1;
    }
    proof {
        assert forall|q: int|
            0 <= q < connection_views(conns@).len() implies !((#[trigger] connection_views(
            conns@,
        )[q]).target_node_id == tn@ && connection_views(conns@)[q].target_slot_template_id
            == ts@) by {
            assert(connection_views(conns@)[q] == conns@[q]@);
        }
    }
    false
}

impl Graph {
    /// Checks a proposed connection against its host slot: the slot's maximum,
    /// an existing connection to the same target slot, and the id of the
    /// target node's template being among those the slot allows, in that
    /// order.
    pub fn is_valid_connection(&self, connection: &Connection) -> (r: GraphResult<()>)
        requires
            self.wf(),
            slot_caps(self@, connection@.host_node_id, connection@.host_slot_template_id) is Some,
            self@.instances.dom().contains(connection@.target_node_id),
        ensures
            match connection_refusal(self@, connection@) {
                None => r is Ok,
                Some(msg) => r matches Err(GraphError::InvalidConnection { connection: c, reason })
                    && c == *connection && reason@ == msg,
            },
    {
        proof {
            self.lemma_wf();
        }
        let from_slot_cap = self.get_slot_capabilities(
            connection.host_node_id.as_str(),
            connection.host_slot_template_id.as_str(),
        ).unwrap();
        let target_node_cap = self.get_node_capabilities(connection.target_node_id.as_str()).unwrap();
        let connection_allowed = contains_string(
            &from_slot_cap.template.allowed_connections,
            &target_node_cap.template.template_id,
        );
        let conns = &from_slot_cap.instance.connections;
        let limit = match from_slot_cap.template.max_connections {
            Some(m) => m,
            None => usize::MAX,
        };
        let below_max = conns.len() < limit;
        let already = has_connection_to(
            conns,
            &connection.target_node_id,
            &connection.target_slot_template_id,
        );
        proof {
            assert(from_slot_cap.instance@.connections == connection_views(conns@));
        }
        if !below_max {
            return Err(
                GraphError::InvalidConnection {
                    connection: connection.clone(),
                    reason: String::from_str("Slot's max length is reached"),
                },
            );
        }
        if already {
            return Err(
                GraphError::InvalidConnection {
                    connection: connection.clone(),
                    reason: String::from_str("Connection alrady exists"),
                },
            );
        }
        if !connection_allowed {
            return Err(
                GraphError::InvalidConnection {
                    connection: connection.clone(),
                    reason: String::from_str(
                        "This slot type cannot connect to the attempted node template",
                    ),
                },
            );
        }
        Ok(())
    }

    /// Refuses changes to node `node` when its template or the node is locked.
    pub(crate) fn check_node_modifiable_status(&self, node: &NodeInstance) -> (r: GraphResult<()>)
        requires
            self.wf(),
            self@.instances.dom().contains(node@.instance_id),
        ensures
            r is Ok <==> node_modifiable(self@, node@.instance_id),
            r matches Err(e) ==> node_lock_error(self@, node@.instance_id, e),
    {
        let node_caps = self.get_node_capabilities(node.instance_id.as_str()).unwrap();
        if !node_caps.template.can_modify_slots {
            return Err(GraphError::NodeTemplateLocked { name: node_caps.template.name.clone() });
        }
        if !node_caps.instance.can_modify_connections {
            return Err(GraphError::NodeInstanceLocked);
        }
        Ok(())
    }

    /// Refuses changes to a slot when its slot template, the first slot of its
    /// node, or its node is locked.
    pub(crate) fn check_slot_modifiable_status(&self, slot: &SlotInstance) -> (r: GraphResult<()>)
        requires
            self.wf(),
            slot_known(self@, slot@.node_instance_id, slot@.slot_template_id),
        ensures
            r is Ok <==> slot_modifiable(self@, slot@.node_instance_id, slot@.slot_template_id),
            r matches Err(e) ==> slot_lock_error(self@, slot@.node_instance_id, slot@.slot_template_id, e),
    {
        proof {
            crate::seqs::lemma_first_index(
                self@.instances[slot@.node_instance_id].slots,
                crate::model::slot_with_template_id(slot@.slot_template_id),
            );
        }
        proof {
            self.lemma_wf();
        }
        let node_caps = self.get_node_capabilities(slot.node_instance_id.as_str()).unwrap();
        let slot_template = node_caps.template.get_slot_template(slot.slot_template_id.as_str()).unwrap();
        let slot_instance = &node_caps.instance.slots[0];
        if !slot_template.can_modify_connections {
            return Err(GraphError::SlotTemplateLocked { name: slot_template.name.clone() });
        }
        if !slot_instance.can_modify {
            return Err(GraphError::SlotInstanceLocked);
        }
        self.check_node_modifiable_status(node_caps.instance)?;
        Ok(())
    }

    /// Refuses deleting `conn` when it is locked or its host slot is.
    pub(crate) fn check_connection_modifiable_status(&self, conn: &Connection) -> (r: GraphResult<()>)
        requires
            self.wf(),
            slot_known(self@, conn@.host_node_id, conn@.host_slot_template_id),
        ensures
            r is Ok <==> connection_deletable(self@, conn@),
            r matches Err(e) ==> connection_lock_error(self@, *conn, e),
    {
        proof {
            self.lemma_wf();
        }
        let node_caps = self.get_node_capabilities(conn.host_node_id.as_str()).unwrap();
        let k = node_caps.instance.slot_index(conn.host_slot_template_id.as_str()).unwrap();
        let slot_instance = &node_caps.instance.slots[k];
        proof {
            crate::seqs::lemma_first_index(
                node_caps.instance@.slots,
                crate::model::slot_with_template_id(conn@.host_slot_template_id),
            );
            assert(node_caps.instance@.slots[k as int] == slot_instance@);
        }
        if !conn.can_delete {
            return Err(
                GraphError::ConnectionDeletionFailed {
                    connection: conn.clone(),
                    reason: Box::new(GraphError::ConnectionLocked),
                },
            );
        }
        match self.check_slot_modifiable_status(slot_instance) {
            Ok(()) => Ok(()),
            Err(err) => Err(
                GraphError::ConnectionDeletionFailed { connection: conn.clone(), reason: Box::new(err) },
            ),
        }
    }

    proof fn lemma_slot_known_caps(&self, node: Seq<char>, sid: Seq<char>)
        requires
            self.wf(),
            slot_known(self@, node, sid),
        ensures
            ({
                let k = slot_index(self@.instances[node], sid)->0;
                &&& 0 <= k < self@.instances[node].slots.len()
                &&& self@.instances[node].slots[k].slot_template_id == sid
                &&& self@.instances[node].slots[k].node_instance_id == node
                &&& slot_caps(self@, node, sid) == Some(
                    (slot_template_of(self@, node, sid), self@.instances[node].slots[k]),
                )
            }),
    {
        self.lemma_wf();
        let n = self@.instances[node];
        crate::seqs::lemma_first_index(n.slots, crate::model::slot_with_template_id(sid));
        let k = slot_index(n, sid)->0;
        assert(crate::graph::slot_well_placed(n, n.slots[k]));
    }

    /// Adds `connection` to its host slot when the connection is valid, the
    /// host node is modifiable, and the host slot template lets its
    /// connections change.
    pub fn connect_slots(&mut self, connection: Connection) -> (r: GraphResult<()>)
        requires
            old(self).wf(),
            slot_known(old(self)@, connection@.host_node_id, connection@.host_slot_template_id),
            old(self)@.instances.dom().contains(connection@.target_node_id),
        ensures
            final(self).wf(),
            connect_post(old(self)@, final(self)@, connection, r),
    {
        proof {
            self.lemma_wf();
            self.lemma_slot_known_caps(connection@.host_node_id, connection@.host_slot_template_id);
        }
        let ghost g = self@;
        let node_caps = self.get_node_capabilities(connection.host_node_id.as_str()).unwrap();
        let slot_template = node_caps.get_slot_template(connection.host_slot_template_id.as_str()).unwrap();
        match self.is_valid_connection(&connection) {
            Ok(()) => {},
            Err(err) => {
                return Err(
                    GraphError::ConnectionCreationFailed {
                        node_template_name: node_caps.template.name.clone(),
                        slot_template_name: slot_template.name.clone(),
                        reason: Box::new(err),
                    },
                );
            },
        }
        match self.check_node_modifiable_status(node_caps.instance) {
            Ok(()) => {},
            Err(err) => {
                return Err(
                    GraphError::ConnectionCreationFailed {
                        node_template_name: node_caps.template.name.clone(),
                        slot_template_name: slot_template.name.clone(),
                        reason: Box::new(err),
                    },
                );
            },
        }
        if !slot_template.can_modify_connections {
            return Err(
                GraphError::ConnectionCreationFailed {
                    node_template_name: node_caps.template.name.clone(),
                    slot_template_name: slot_template.name.clone(),
                    reason: Box::new(
                        GraphError::SlotTemplateLocked { name: slot_template.name.clone() },
                    ),
                },
            );
        }
        let k = node_caps.instance.slot_index(connection.host_slot_template_id.as_str()).unwrap();
        let mut conns = clone_connections_of(&node_caps.instance.slots[k]);
        proof {
            assert(node_caps.instance@.slots[k as int].connections == connection_views(conns@));
        }
        let ghost host = connection@.host_node_id;
        let host_id = connection.host_node_id.clone();
        conns.push(connection);
        proof {
            let n = g.instances[host];
            assert(crate::graph::slot_well_placed(n, n.slots[k as int]));
            assert forall|c: int| 0 <= c < conns@.len() implies (#[trigger] conns@[c]).host_node_id@
                == host && conns@[c].host_slot_template_id@ == n.slots[k as int].slot_template_id by {
                if c < conns@.len() - 1 {
                    assert(n.slots[k as int].connections[c] == conns@[c]@);
                }
            }
            assert(connection_views(conns@) =~= n.slots[k as int].connections.push(conns@[conns@.len() - 1]@));
        }
        self.set_slot_connections(host_id.as_str(), k, conns);
        Ok(())
    }

    /// Deletes the connections of `connection`'s host slot that end at the
    /// same target slot, when `connection` is not locked and its host slot is
    /// modifiable.
    pub fn delete_connection(&mut self, connection: &Connection) -> (r: GraphResult<()>)
        requires
            old(self).wf(),
            slot_known(old(self)@, connection@.host_node_id, connection@.host_slot_template_id),
        ensures
            final(self).wf(),
            delete_connection_post(old(self)@, final(self)@, *connection, r),
    {
        proof {
            self.lemma_wf();
            self.lemma_slot_known_caps(connection@.host_node_id, connection@.host_slot_template_id);
        }
        let ghost g = self@;
        match self.check_connection_modifiable_status(connection) {
            Ok(()) => {},
            Err(err) => {
                return Err(
                    GraphError::ConnectionDeletionFailed {
                        connection: connection.clone(),
                        reason: Box::new(err),
                    },
                );
            },
        }
        let instance = self.instance(connection.host_node_id.as_str()).unwrap();
        let k = instance.slot_index(connection.host_slot_template_id.as_str()).unwrap();
        let kept = retain_connections(
            &instance.slots[k].connections,
            &connection.target_node_id,
            &connection.target_slot_template_id,
        );
        proof {
            let host = connection@.host_node_id;
            let n = g.instances[host];
            assert(instance@.slots[k as int].connections == n.slots[k as int].connections);
            assert(crate::graph::slot_well_placed(n, n.slots[k as int]));
            lemma_retained_subset(n.slots[k as int].connections, connection@.target_node_id, connection@.target_slot_template_id);
            assert forall|c: int| 0 <= c < kept@.len() implies (#[trigger] kept@[c]).host_node_id@
                == host && kept@[c].host_slot_template_id@ == n.slots[k as int].slot_template_id by {
                assert(connection_views(kept@)[c] == kept@[c]@);
                let cs = n.slots[k as int].connections;
                let j = choose|j: int| 0 <= j < cs.len() && cs[j] == connection_views(kept@)[c];
            }
        }
        self.set_slot_connections(connection.host_node_id.as_str(), k, kept);
        Ok(())
    }
}

/// Clones the connections of a slot.
pub fn clone_connections_of(slot: &SlotInstance) -> (r: Vec<Connection>)
    ensures
        connection_views(r@) == slot@.connections,
{
    let r = crate::model::clone_connections(&slot.connections);
    r
}

} // verus!
