//! Properties that relate the graph operations to one another.
use vstd::prelude::*;
use crate::commands::{command_post, command_ready, GraphCommand};
use crate::connect::{
    connect_post, connection_refusal, delete_connection_post, node_template_of, retained_connections,
    slot_known, slot_template_of,
};
use crate::creation::{create_instance_post, incoming_slot_template, with_incoming_slot};
use crate::decimal::{decimal_digits, lemma_decimal_digits, signed_decimal};
use crate::deletion::{delete_node_post, delete_slot_post, no_incoming, targets_node};
use crate::errors::{GraphError, GraphResult};
use crate::fields::{decimal_value, digits_value, field_update_refusal, field_updated, i32_text_value, update_field_post};
use crate::menu::{menu_command, ContextMenuAction, ContextMenuTarget};
use crate::graph::{moved_to, view_well_formed, with_slot_connections, GraphView};
use crate::model::{
    field_with_template_id, slot_index, slot_template_by_id, slot_with_template_id, Connection,
    ConnectionView, NodeInstanceView, NodeTemplateView,
};
use crate::prune::{keep_where, lemma_keep_where_subset, prune};
use crate::queries::{graph_valid, instance_ids_of_template, slot_caps};
use crate::conformity::{conformity_post, slot_malformed, slot_template_at};
use crate::config::InitialNodeView;
use crate::initial::{initial_instance, last_stored_as, link_all, link_initial, link_initial_nodes, place_initial_nodes};
use crate::seqs::{first_index, lemma_first_index};
use crate::views::{applied, lemma_applied, lemma_applied_restores, same_but_positions, switched_to, EngineView, VIEW_COUNT};

verus! {

/// Retaining the connections that do not end at a slot, from connections
/// none of which ends there, keeps them all.
pub proof fn lemma_retained_none(cs: Seq<ConnectionView>, tn: Seq<char>, ts: Seq<char>)
    requires
        forall|j: int| 0 <= j < cs.len() ==> !((#[trigger] cs[j]).target_node_id == tn && cs[j].target_slot_template_id == ts),
    ensures
        retained_connections(cs, tn, ts) == cs,
    decreases cs.len(),
{
    if cs.len() > 0 {
        let t = cs.drop_last();
        assert forall|j: int| 0 <= j < t.len() implies !((#[trigger] t[j]).target_node_id == tn && t[j].target_slot_template_id == ts) by {
            assert(t[j] == cs[j]);
        }
        lemma_retained_none(t, tn, ts);
        assert(cs[cs.len() - 1] == cs.last());
        assert(t.push(cs.last()) =~= cs);
    }
}

/// The slot and slot template that `slot_caps` finds for a known slot.
proof fn lemma_known_slot_caps(g: GraphView, host: Seq<char>, sid: Seq<char>)
    requires
        view_well_formed(g),
        slot_known(g, host, sid),
    ensures
        slot_index(g.instances[host], sid) is Some,
        0 <= slot_index(g.instances[host], sid)->0 < g.instances[host].slots.len(),
        g.instances[host].slots[slot_index(g.instances[host], sid)->0].slot_template_id == sid,
        slot_caps(g, host, sid) == Some(
            (slot_template_of(g, host, sid), g.instances[host].slots[slot_index(g.instances[host], sid)->0]),
        ),
{
    let n = g.instances[host];
    lemma_first_index(n.slots, slot_with_template_id(sid));
    let k = slot_index(n, sid)->0;
    assert(crate::graph::slot_well_placed(n, n.slots[k]));
}

/// Deleting a connection right after creating it gives back the graph as it
/// was, when the connection may be deleted and the host node's first slot is
/// modifiable.
pub proof fn law_delete_undoes_connect(
    g0: GraphView,
    g1: GraphView,
    g2: GraphView,
    c: Connection,
    r1: GraphResult<()>,
    r2: GraphResult<()>,
)
    requires
        view_well_formed(g0),
        slot_known(g0, c@.host_node_id, c@.host_slot_template_id),
        g0.instances.dom().contains(c@.target_node_id),
        connect_post(g0, g1, c, r1),
        r1 is Ok,
        c@.can_delete,
        g0.instances[c@.host_node_id].slots[0].can_modify,
        delete_connection_post(g1, g2, c, r2),
    ensures
        r2 is Ok,
        g2 == g0,
{
    let host = c@.host_node_id;
    let sid = c@.host_slot_template_id;
    let tn = c@.target_node_id;
    let ts = c@.target_slot_template_id;
    lemma_known_slot_caps(g0, host, sid);
    let n = g0.instances[host];
    let k = slot_index(n, sid)->0;
    let cs = n.slots[k].connections;
    let n1 = with_slot_connections(n, k, cs.push(c@));
    assert(g1.instances[host] == n1);
    assert forall|q: int| 0 <= q < n1.slots.len() implies (#[trigger] n1.slots[q]).slot_template_id == n.slots[q].slot_template_id by {}
    crate::graph::lemma_slot_index_same_ids(n, n1, sid);
    assert(n1.slots[0].can_modify == n.slots[0].can_modify);
    assert(crate::connect::connection_deletable(g1, c@));
    assert(forall|j: int| 0 <= j < cs.len() ==> !((#[trigger] cs[j]).target_node_id == tn && cs[j].target_slot_template_id == ts));
    lemma_retained_none(cs, tn, ts);
    assert(cs.push(c@).drop_last() =~= cs);
    assert(retained_connections(cs.push(c@), tn, ts) == cs);
    assert(with_slot_connections(n1, k, cs).slots =~= n.slots);
    assert(with_slot_connections(n1, k, cs) == n);
    assert(g2.instances =~= g0.instances);
}

/// After a connection is deleted, its host slot holds no connection that
/// ends where it ends.
pub proof fn law_deleted_connection_gone(g0: GraphView, g1: GraphView, c: Connection, r: GraphResult<()>)
    requires
        view_well_formed(g0),
        slot_known(g0, c@.host_node_id, c@.host_slot_template_id),
        delete_connection_post(g0, g1, c, r),
        r is Ok,
    ensures
        ({
            let cs = g1.instances[c@.host_node_id].slots[slot_index(g0.instances[c@.host_node_id], c@.host_slot_template_id)->0].connections;
            forall|i: int|
                0 <= i < cs.len() ==> !((#[trigger] cs[i]).target_node_id == c@.target_node_id && cs[i].target_slot_template_id
                    == c@.target_slot_template_id)
        }),
{
    let host = c@.host_node_id;
    let sid = c@.host_slot_template_id;
    lemma_known_slot_caps(g0, host, sid);
    let n = g0.instances[host];
    let k = slot_index(n, sid)->0;
    crate::connect::lemma_retained_subset(n.slots[k].connections, c@.target_node_id, c@.target_slot_template_id);
}

/// A created connection never takes its host slot above the slot template's
/// maximum.
pub proof fn law_connect_respects_max(g0: GraphView, g1: GraphView, c: Connection, r: GraphResult<()>)
    requires
        view_well_formed(g0),
        slot_known(g0, c@.host_node_id, c@.host_slot_template_id),
        g0.instances.dom().contains(c@.target_node_id),
        connect_post(g0, g1, c, r),
        r is Ok,
    ensures
        ({
            let k = slot_index(g0.instances[c@.host_node_id], c@.host_slot_template_id)->0;
            let count = g1.instances[c@.host_node_id].slots[k].connections.len();
            &&& count == g0.instances[c@.host_node_id].slots[k].connections.len() + 1
            &&& slot_template_of(g0, c@.host_node_id, c@.host_slot_template_id).max_connections matches Some(m) ==> count <= m
        }),
{
    lemma_known_slot_caps(g0, c@.host_node_id, c@.host_slot_template_id);
}

/// A created connection leads to a node of a template that its slot
/// allows, and its slot held no connection to the same target slot before.
pub proof fn law_connect_respects_allowed_templates(g0: GraphView, g1: GraphView, c: Connection, r: GraphResult<()>)
    requires
        view_well_formed(g0),
        slot_known(g0, c@.host_node_id, c@.host_slot_template_id),
        g0.instances.dom().contains(c@.target_node_id),
        connect_post(g0, g1, c, r),
        r is Ok,
    ensures
        slot_template_of(g0, c@.host_node_id, c@.host_slot_template_id).allowed_connections.contains(
            g0.templates[g0.instances[c@.target_node_id].template_id].template_id,
        ),
        ({
            let k = slot_index(g0.instances[c@.host_node_id], c@.host_slot_template_id)->0;
            let before = g0.instances[c@.host_node_id].slots[k].connections;
            forall|j: int|
                0 <= j < before.len() ==> !((#[trigger] before[j]).target_node_id == c@.target_node_id
                    && before[j].target_slot_template_id == c@.target_slot_template_id)
        }),
{
    lemma_known_slot_caps(g0, c@.host_node_id, c@.host_slot_template_id);
}

/// Deleting a node removes it together with every connection that ends at it.
pub proof fn law_deleted_node_gone(g0: GraphView, g1: GraphView, node: Seq<char>, r: GraphResult<()>)
    requires
        delete_node_post(g0, g1, node, r),
        r is Ok,
    ensures
        !g1.instances.dom().contains(node),
        no_incoming(g1, node),
{
    let p = prune(g0, targets_node(node));
    assert forall|h: Seq<char>, k: int, i: int|
        g1.instances.dom().contains(h) && 0 <= k < g1.instances[h].slots.len() && 0 <= i
            < g1.instances[h].slots[k].connections.len() implies (
    #[trigger] g1.instances[h].slots[k].connections[i]).target_node_id != node by {
        let n = g0.instances[h];
        let pred = |x: ConnectionView| !(targets_node(node))(n.instance_id, n.slots[k].slot_template_id, x);
        assert(g1.instances[h] == p.instances[h]);
        assert(p.instances[h].slots[k].connections == keep_where(n.slots[k].connections, pred));
        lemma_keep_where_subset(n.slots[k].connections, pred);
        assert(pred(keep_where(n.slots[k].connections, pred)[i]));
    }
}

/// A field set by `update_field` reads back as the value written.
pub proof fn law_field_reads_back(g0: GraphView, node: Seq<char>, ftid: Seq<char>, value: Seq<char>)
    requires
        view_well_formed(g0),
        field_update_refusal(g0, node, ftid, value) is None,
    ensures
        ({
            let g1 = field_updated(g0, node, ftid, value);
            let j = first_index(g1.instances[node].fields, field_with_template_id(ftid));
            &&& j is Some
            &&& g1.instances[node].fields[j->0].value == value
            &&& g1.instances[node].fields[j->0].field_template_id == ftid
        }),
{
    let n = g0.instances[node];
    let p = field_with_template_id(ftid);
    lemma_first_index(n.fields, p);
    let j = first_index(n.fields, p)->0;
    let g1 = field_updated(g0, node, ftid, value);
    let n1 = g1.instances[node];
    assert forall|q: int| 0 <= q < n1.fields.len() implies p(#[trigger] n1.fields[q]) == p(n.fields[q]) by {}
    crate::seqs::lemma_first_index_is(n1.fields, p, j);
}

/// A node created from a template starts with no connections, each field at
/// its default value, and the template's id.
pub proof fn law_created_node_is_fresh(
    g0: GraphView,
    g1: GraphView,
    tid: Seq<char>,
    x: u64,
    y: u64,
    id: Option<Seq<char>>,
    r: GraphResult<String>,
)
    requires
        view_well_formed(g0),
        create_instance_post(g0, g1, tid, x, y, id, r),
        r is Ok,
    ensures
        ({
            let iid = r->Ok_0@;
            let n = g1.instances[iid];
            &&& g1.instances.dom().contains(iid)
            &&& n.template_id == tid
            &&& n.slots.len() == g0.templates[tid].slot_templates.len()
            &&& forall|k: int| 0 <= k < n.slots.len() ==> (#[trigger] n.slots[k]).connections.len() == 0
            &&& n.fields.len() == g0.templates[tid].field_templates.len()
            &&& forall|f: int| 0 <= f < n.fields.len() ==> (#[trigger] n.fields[f]).value == g0.templates[tid].field_templates[f].default_value
        }),
{
    assert(g0.templates.dom().contains(tid));
    let t = g0.templates[tid];
    let iid = r->Ok_0@;
    let n = crate::creation::instance_from_template(t, iid, x, y);
    assert(g1.instances[iid] == n);
    assert forall|k: int| 0 <= k < n.slots.len() implies (#[trigger] n.slots[k]).connections.len() == 0 by {}
    assert forall|f: int| 0 <= f < n.fields.len() implies (#[trigger] n.fields[f]).value == t.field_templates[f].default_value by {}
    assert(g1.instances.dom().contains(iid));
    assert(n.template_id == tid);
}

/// A registered template is found under its id, with the incoming slot after
/// its own slots.
pub proof fn law_registered_template_found(g0: GraphView, g1: GraphView, t: NodeTemplateView)
    requires
        g1.templates == g0.templates.insert(t.template_id, with_incoming_slot(t)),
    ensures
        g1.templates.dom().contains(t.template_id),
        g1.templates[t.template_id].slot_templates.len() == t.slot_templates.len() + 1,
        g1.templates[t.template_id].slot_templates.last() == incoming_slot_template(),
        g1.templates[t.template_id].slot_templates.drop_last() == t.slot_templates,
{
    assert(t.slot_templates.push(incoming_slot_template()).drop_last() =~= t.slot_templates);
}

/// A refused command to create a connection or a node, delete a connection,
/// or set a field leaves the graph as it was.
pub proof fn law_refused_command_changes_nothing(g0: GraphView, g1: GraphView, c: GraphCommand, r: GraphResult<()>)
    requires
        view_well_formed(g0),
        command_ready(g0, c),
        command_post(g0, g1, c, r),
        r is Err,
        !(c is DeleteNode),
        !(c is DeleteSlotConnections),
    ensures
        g1 == g0,
{
}

/// Moving nodes twice is moving them once.
proof fn lemma_same_but_positions_trans(a: GraphView, b: GraphView, c: GraphView)
    requires
        same_but_positions(a, b),
        same_but_positions(b, c),
    ensures
        same_but_positions(a, c),
{
    assert forall|id: Seq<char>| #[trigger] a.instances.dom().contains(id) implies c.instances[id] == moved_to(
        a.instances[id],
        c.instances[id].x,
        c.instances[id].y,
    ) by {
        assert(b.instances[id] == moved_to(a.instances[id], b.instances[id].x, b.instances[id].y));
        assert(c.instances[id] == moved_to(b.instances[id], c.instances[id].x, c.instances[id].y));
    }
}

/// Views keep their layouts: after switching from the shown view to
/// another one and back, with nodes only moved in between, every node is
/// where it was when the first view was left.
pub proof fn law_switching_back_restores_positions(
    e0: EngineView,
    g0: GraphView,
    j: int,
    e1: EngineView,
    g1: GraphView,
    moved: GraphView,
    e2: EngineView,
    g2: GraphView,
)
    requires
        e0.views.len() == VIEW_COUNT,
        0 <= e0.current < VIEW_COUNT,
        0 <= j < VIEW_COUNT,
        j != e0.current,
        switched_to(e0, e1, g0, j),
        g1 == applied(g0, e1.views[j].snapshot),
        same_but_positions(g1, moved),
        switched_to(e1, e2, moved, e0.current),
        g2 == applied(moved, e2.views[e0.current].snapshot),
    ensures
        g2 == g0,
{
    let s = e1.views[e0.current].snapshot;
    assert(e2.views[e0.current] == e1.views[e0.current]);
    lemma_applied(g0, e1.views[j].snapshot);
    lemma_same_but_positions_trans(g0, g1, moved);
    lemma_applied_restores(g0, moved, s);
}

/// An integer written in decimal, as the context menu writes a stepped
/// field value, is read back as the same integer by the parse that
/// `update_field` applies to integer fields.
pub proof fn law_integer_text_reads_back(v: i32)
    ensures
        i32_text_value(signed_decimal(v as int)) == Some(v),
{
    let s = signed_decimal(v as int);
    if v < 0 {
        let d = decimal_digits((-v) as nat);
        lemma_decimal_digits((-v) as nat);
        assert(s.drop_first() =~= d);
        assert(s[0] == '-');
        assert(decimal_value(s) == Some(-digits_value(d)));
    } else {
        lemma_decimal_digits(v as nat);
        assert('0' <= s[0] <= '9');
        assert(decimal_value(s) == Some(digits_value(s)));
    }
}

/// A node created from a template that limits its instances leaves the
/// template with no more instances than its maximum.
pub proof fn law_created_node_respects_max_instances(
    g0: GraphView,
    g1: GraphView,
    tid: Seq<char>,
    x: u64,
    y: u64,
    id: Option<Seq<char>>,
    r: GraphResult<String>,
)
    requires
        view_well_formed(g0),
        create_instance_post(g0, g1, tid, x, y, id, r),
        r is Ok,
    ensures
        g0.templates[tid].max_instances matches Some(m) ==> instance_ids_of_template(g1, tid).len() <= m,
{
    let iid = r->Ok_0@;
    let before = instance_ids_of_template(g0, tid);
    let after = instance_ids_of_template(g1, tid);
    assert(after <= before.insert(iid)) by {
        assert forall|h: Seq<char>| after.contains(h) implies before.insert(iid).contains(h) by {
            if h != iid {
                assert(g1.instances[h] == g0.instances[h]);
            }
        }
    }
    assert(before <= g0.instances.dom());
    vstd::set_lib::lemma_len_subset(before, g0.instances.dom());
    vstd::set_lib::lemma_len_subset(after, before.insert(iid));
}

/// Slot `k` of node `h` holds no more connections than its slot template's
/// maximum, and no two of its connections end at the same slot.
pub open spec fn slot_bounded(g: GraphView, h: Seq<char>, k: int) -> bool {
    let s = g.instances[h].slots[k];
    let st = slot_template_of(g, h, s.slot_template_id);
    &&& (st.max_connections matches Some(m) ==> s.connections.len() <= m)
    &&& forall|i: int, j: int|
        0 <= i < j < s.connections.len() ==> !((#[trigger] s.connections[i]).target_node_id
            == (#[trigger] s.connections[j]).target_node_id && s.connections[i].target_slot_template_id
            == s.connections[j].target_slot_template_id)
}

/// Every slot of every node is bounded.
pub open spec fn slots_bounded(g: GraphView) -> bool {
    forall|h: Seq<char>, k: int|
        g.instances.dom().contains(h) && 0 <= k < g.instances[h].slots.len() ==> #[trigger] slot_bounded(g, h, k)
}

/// Connecting keeps every slot of the graph within its maximum and free of
/// two connections to the same slot, whether it succeeds or not.
pub proof fn law_connect_keeps_slots_bounded(g0: GraphView, g1: GraphView, c: Connection, r: GraphResult<()>)
    requires
        view_well_formed(g0),
        slot_known(g0, c@.host_node_id, c@.host_slot_template_id),
        g0.instances.dom().contains(c@.target_node_id),
        slots_bounded(g0),
        connect_post(g0, g1, c, r),
    ensures
        slots_bounded(g1),
{
    let host = c@.host_node_id;
    let sid = c@.host_slot_template_id;
    lemma_known_slot_caps(g0, host, sid);
    if r is Ok {
        let n = g0.instances[host];
        let k = slot_index(n, sid)->0;
        let cs = n.slots[k].connections;
        assert(connection_refusal(g0, c@) is None);
        assert forall|h: Seq<char>, k2: int|
            g1.instances.dom().contains(h) && 0 <= k2 < g1.instances[h].slots.len() implies #[trigger] slot_bounded(g1, h, k2) by {
            assert(g0.instances.dom().contains(h));
            assert(slot_bounded(g0, h, k2));
            if h == host && k2 == k {
                let s1 = g1.instances[h].slots[k2];
                assert(s1.connections == cs.push(c@));
                assert(s1.slot_template_id == sid);
                assert(node_template_of(g1, h) == node_template_of(g0, h));
                assert forall|i: int, j: int| 0 <= i < j < s1.connections.len() implies !((#[trigger] s1.connections[i]).target_node_id
                    == (#[trigger] s1.connections[j]).target_node_id && s1.connections[i].target_slot_template_id
                    == s1.connections[j].target_slot_template_id) by {
                    assert(s1.connections[i] == cs[i]);
                    if j < cs.len() {
                        assert(s1.connections[j] == cs[j]);
                    } else {
                        assert(s1.connections[j] == c@);
                    }
                }
            } else {
                assert(g1.instances[h].slots[k2] == g0.instances[h].slots[k2]);
                assert(node_template_of(g1, h) == node_template_of(g0, h));
            }
        }
    } else {
        assert(g1 == g0);
    }
}

/// The result of creating a node, without the new node's id.
pub open spec fn without_id(r: GraphResult<String>) -> GraphResult<()> {
    match r {
        Ok(_) => Ok(()),
        Err(e) => Err(e),
    }
}

/// Running a command has exactly the result and the effect of calling the
/// operation it names on the same graph; a created node's id is left out of
/// the result.
pub proof fn law_command_is_its_operation(g0: GraphView, g1: GraphView, c: GraphCommand, r: GraphResult<()>)
    ensures
        command_post(g0, g1, c, r) <==> match c {
            GraphCommand::DeleteNode(node_id) => delete_node_post(g0, g1, node_id@, r),
            GraphCommand::DeleteConnection(conn) => delete_connection_post(g0, g1, conn, r),
            GraphCommand::DeleteSlotConnections { node_id, slot_template_id } => delete_slot_post(
                g0,
                g1,
                node_id@,
                slot_template_id@,
                r,
            ),
            GraphCommand::CreateConnection(conn) => connect_post(g0, g1, conn, r),
            GraphCommand::CreateNode { template_id, x, y } => exists|r2: GraphResult<String>|
                #[trigger] create_instance_post(g0, g1, template_id@, x, y, None, r2) && r == without_id(r2),
            GraphCommand::UpdateField { node_id, field_template_id, new_value } => update_field_post(
                g0,
                g1,
                node_id@,
                field_template_id@,
                new_value@,
                r,
            ),
        },
{
    if let GraphCommand::CreateNode { template_id, x, y } = c {
        if command_post(g0, g1, c, r) {
            match r {
                Ok(u) => {
                    let iid = choose|iid: String| #[trigger] create_instance_post(g0, g1, template_id@, x, y, None, Ok(iid));
                    assert(u == ());
                    assert(without_id(Ok(iid)) == Ok::<(), GraphError>(()));
                    assert(r == without_id(Ok(iid)));
                },
                Err(e) => {
                    assert(r == without_id(Err(e)));
                },
            }
        }
        if exists|r2: GraphResult<String>| #[trigger] create_instance_post(g0, g1, template_id@, x, y, None, r2) && r == without_id(r2) {
            let r2 = choose|r2: GraphResult<String>| #[trigger] create_instance_post(g0, g1, template_id@, x, y, None, r2) && r == without_id(r2);
            match r2 {
                Ok(iid) => {
                    assert(create_instance_post(g0, g1, template_id@, x, y, None, Ok(iid)));
                },
                Err(e) => {},
            }
        }
    }
}

/// A context-menu action runs the operation it names on its target: a field
/// is set to the integer written in decimal, to "true" or "false", or to the
/// string; a node, a connection or a slot's connections are deleted. An
/// action that does not fit its target issues no command and changes
/// nothing.
pub proof fn law_menu_action_is_its_command(
    action: ContextMenuAction,
    target: ContextMenuTarget,
    cmd: Option<GraphCommand>,
    g0: GraphView,
    g1: GraphView,
    r: GraphResult<()>,
)
    requires
        menu_command(action, target, cmd),
        cmd matches Some(c) ==> command_post(g0, g1, c, r),
    ensures
        match (action, target) {
            (ContextMenuAction::SetIntegerField(v), ContextMenuTarget::Field { node_id, field_template_id }) =>
                update_field_post(g0, g1, node_id@, field_template_id@, signed_decimal(v as int), r),
            (ContextMenuAction::SetBooleanField(b), ContextMenuTarget::Field { node_id, field_template_id }) =>
                update_field_post(g0, g1, node_id@, field_template_id@, if b { "true"@ } else { "false"@ }, r),
            (ContextMenuAction::SetStringField(v), ContextMenuTarget::Field { node_id, field_template_id }) =>
                update_field_post(g0, g1, node_id@, field_template_id@, v@, r),
            (ContextMenuAction::Delete, ContextMenuTarget::Node(node_id)) => delete_node_post(g0, g1, node_id@, r),
            (ContextMenuAction::Delete, ContextMenuTarget::Connection(conn)) => cmd matches Some(
                GraphCommand::DeleteConnection(d),
            ) && d@ == conn@ && delete_connection_post(g0, g1, d, r),
            (ContextMenuAction::DeleteAllSlotConnections, ContextMenuTarget::Slot { node_id, slot_template_id }) =>
                delete_slot_post(g0, g1, node_id@, slot_template_id@, r),
            _ => cmd is None,
        },
{
}

/// A graph is its own graph with nodes moved nowhere.
proof fn lemma_same_but_positions_refl(g: GraphView)
    ensures
        same_but_positions(g, g),
{
    assert forall|id: Seq<char>| #[trigger] g.instances.dom().contains(id) implies g.instances[id] == moved_to(
        g.instances[id],
        g.instances[id].x,
        g.instances[id].y,
    ) by {}
}

/// Switching to a view and straight back, with nothing done in between,
/// leaves every node where it was and shows the first view again; this
/// holds also when the view switched to is the one already shown.
pub proof fn law_switching_to_a_view_and_back_changes_nothing(
    e0: EngineView,
    g0: GraphView,
    j: int,
    e1: EngineView,
    g1: GraphView,
    e2: EngineView,
    g2: GraphView,
)
    requires
        e0.views.len() == VIEW_COUNT,
        0 <= e0.current < VIEW_COUNT,
        0 <= j < VIEW_COUNT,
        switched_to(e0, e1, g0, j),
        g1 == applied(g0, e1.views[j].snapshot),
        switched_to(e1, e2, g1, e0.current),
        g2 == applied(g1, e2.views[e0.current].snapshot),
    ensures
        g2 == g0,
        e2.current == e0.current,
{
    lemma_same_but_positions_refl(g1);
    if j != e0.current {
        law_switching_back_restores_positions(e0, g0, j, e1, g1, g1, e2, g2);
    } else {
        lemma_same_but_positions_refl(g0);
        lemma_applied_restores(g0, g0, e1.views[j].snapshot);
        assert(g1 == g0);
        lemma_applied_restores(g1, g1, e2.views[e0.current].snapshot);
    }
}

/// A node with a registered template whose slot holds fewer connections
/// than the matching slot template's minimum makes the graph invalid,
/// whatever that slot template's maximum is.
pub proof fn law_too_few_connections_make_the_graph_invalid(g: GraphView, h: Seq<char>, k: int)
    requires
        g.instances.dom().contains(h),
        g.templates.dom().contains(g.instances[h].template_id),
        0 <= k < g.instances[h].slots.len(),
        k < g.templates[g.instances[h].template_id].slot_templates.len(),
        g.instances[h].slots[k].connections.len() < g.templates[g.instances[h].template_id].slot_templates[k].min_connections,
    ensures
        !graph_valid(g),
{
    assert(g.instances[h].slots[k] == g.instances[h].slots[k]);
}

/// A node with a registered template whose slot holds more connections than
/// the matching slot template's maximum makes the graph invalid.
pub proof fn law_too_many_connections_make_the_graph_invalid(g: GraphView, h: Seq<char>, k: int, m: usize)
    requires
        g.instances.dom().contains(h),
        g.templates.dom().contains(g.instances[h].template_id),
        0 <= k < g.instances[h].slots.len(),
        k < g.templates[g.instances[h].template_id].slot_templates.len(),
        g.templates[g.instances[h].template_id].slot_templates[k].max_connections == Some(m),
        g.instances[h].slots[k].connections.len() > m,
    ensures
        !graph_valid(g),
{
    assert(g.instances[h].slots[k] == g.instances[h].slots[k]);
}

/// A graph whose every slot holds between its slot template's minimum and
/// maximum number of connections, both included, is valid.
pub proof fn law_slots_within_their_bounds_make_the_graph_valid(g: GraphView)
    requires
        forall|h: Seq<char>, k: int|
            g.instances.dom().contains(h) && g.templates.dom().contains(g.instances[h].template_id) && 0 <= k
                < g.instances[h].slots.len() && k < g.templates[g.instances[h].template_id].slot_templates.len() ==> {
                let c = (#[trigger] g.instances[h].slots[k]).connections.len();
                let st = g.templates[g.instances[h].template_id].slot_templates[k];
                &&& st.min_connections <= c
                &&& (st.max_connections matches Some(m) ==> c <= m)
            },
    ensures
        graph_valid(g),
{
}

/// A slot holding between its slot template's minimum and maximum number of
/// connections, both included, is not malformed.
pub proof fn law_slot_within_bounds_is_not_malformed(g: GraphView, h: Seq<char>, k: int)
    requires
        g.instances.dom().contains(h),
        0 <= k < g.instances[h].slots.len(),
        slot_template_at(g, h, k).min_connections <= g.instances[h].slots[k].connections.len(),
        slot_template_at(g, h, k).max_connections matches Some(m) ==> g.instances[h].slots[k].connections.len() <= m,
    ensures
        !slot_malformed(g, h, k),
{
}

/// A slot holding fewer connections than its slot template's minimum, or
/// more than its maximum, is malformed.
pub proof fn law_slot_out_of_bounds_is_malformed(g: GraphView, h: Seq<char>, k: int)
    requires
        g.instances.dom().contains(h),
        0 <= k < g.instances[h].slots.len(),
        slot_template_at(g, h, k).min_connections > g.instances[h].slots[k].connections.len() || (slot_template_at(
            g,
            h,
            k,
        ).max_connections matches Some(m) && g.instances[h].slots[k].connections.len() > m),
    ensures
        slot_malformed(g, h, k),
{
}

/// The conformity check, and so saving, succeeds when every slot holds
/// between its slot template's minimum and maximum number of connections,
/// both included.
pub proof fn law_conforming_graph_passes(g: GraphView, r: GraphResult<()>)
    requires
        forall|h: Seq<char>, k: int|
            g.instances.dom().contains(h) && 0 <= k < g.instances[h].slots.len() ==> {
                let c = (#[trigger] g.instances[h].slots[k]).connections.len();
                &&& slot_template_at(g, h, k).min_connections <= c
                &&& (slot_template_at(g, h, k).max_connections matches Some(m) ==> c <= m)
            },
        conformity_post(g, r),
    ensures
        r is Ok,
{
    assert forall|h: Seq<char>, k: int| !#[trigger] slot_malformed(g, h, k) by {
        if g.instances.dom().contains(h) && 0 <= k < g.instances[h].slots.len() {
            assert(g.instances[h].slots[k] == g.instances[h].slots[k]);
        }
    }
}

/// Deleting a node whose template has a minimum number of instances, and
/// has no more instances than that minimum, fails and changes nothing: a
/// deletion never takes a template below its minimum.
pub proof fn law_deletion_respects_min_instances(g0: GraphView, g1: GraphView, node: Seq<char>, r: GraphResult<()>, m: usize)
    requires
        view_well_formed(g0),
        g0.instances.dom().contains(node),
        g0.templates[g0.instances[node].template_id].min_instances == Some(m),
        g0.instances.dom().filter(|id: Seq<char>| g0.instances[id].template_id == g0.instances[node].template_id).len() <= m,
        delete_node_post(g0, g1, node, r),
    ensures
        r is Err,
        g1 == g0,
{
    let tid = g0.instances[node].template_id;
    assert(crate::graph::instance_well_formed(g0, g0.instances[node]));
    assert(g0.templates[tid].template_id == tid);
    assert(instance_ids_of_template(g0, tid) =~= g0.instances.dom().filter(|id: Seq<char>| g0.instances[id].template_id == tid));
}

/// A successful deletion leaves every template with a minimum number of
/// instances at or above that minimum, when it was at or above it before.
pub proof fn law_deletion_keeps_instance_counts_above_minimum(g0: GraphView, g1: GraphView, node: Seq<char>, r: GraphResult<()>, tid: Seq<char>, m: usize)
    requires
        view_well_formed(g0),
        g0.templates.dom().contains(tid),
        g0.templates[tid].min_instances == Some(m),
        g0.instances.dom().filter(|id: Seq<char>| g0.instances[id].template_id == tid).len() >= m,
        delete_node_post(g0, g1, node, r),
        r is Ok,
    ensures
        g1.instances.dom().filter(|id: Seq<char>| g1.instances[id].template_id == tid).len() >= m,
{
    let before = g0.instances.dom().filter(|id: Seq<char>| g0.instances[id].template_id == tid);
    let after = g1.instances.dom().filter(|id: Seq<char>| g1.instances[id].template_id == tid);
    assert(g0.instances.dom().contains(node));
    let ntid = g0.instances[node].template_id;
    assert(crate::graph::instance_well_formed(g0, g0.instances[node]));
    assert(g0.templates[ntid].template_id == ntid);
    let pr = prune(g0, targets_node(node));
    assert forall|h: Seq<char>| #[trigger] g0.instances.dom().contains(h) implies pr.instances[h].template_id == g0.instances[h].template_id by {
        crate::deletion::lemma_prune_shape(g0, targets_node(node), h);
    }
    crate::deletion::lemma_prune_shape(g0, targets_node(node), node);
    assert(g1.instances.dom() =~= g0.instances.dom().remove(node));
    if ntid == tid {
        assert(instance_ids_of_template(g0, tid) =~= before);
        assert(before.len() > m);
        assert(after =~= before.remove(node));
        assert(before.contains(node));
        g0.instances.dom().lemma_len_filter(|id: Seq<char>| g0.instances[id].template_id == tid);
        assert(before.finite());
        assert(after.len() == before.len() - 1);
    } else {
        assert(after =~= before);
    }
}

/// A node created from a template sits where it was asked to and takes the
/// template's default width and height.
pub proof fn law_created_node_takes_position_and_template_size(
    g0: GraphView,
    g1: GraphView,
    tid: Seq<char>,
    x: u64,
    y: u64,
    id: Option<Seq<char>>,
    r: GraphResult<String>,
)
    requires
        view_well_formed(g0),
        create_instance_post(g0, g1, tid, x, y, id, r),
        r is Ok,
    ensures
        g1.instances.dom().contains(r->Ok_0@),
        g1.instances[r->Ok_0@].x == x,
        g1.instances[r->Ok_0@].y == y,
        g1.instances[r->Ok_0@].width == g0.templates[tid].default_width,
        g1.instances[r->Ok_0@].height == g0.templates[tid].default_height,
        g1.instances[r->Ok_0@].template_id == tid,
{
}

/// `a` and `b` agree on everything but their slots.
pub open spec fn same_but_slots(a: NodeInstanceView, b: NodeInstanceView) -> bool {
    &&& a.instance_id == b.instance_id
    &&& a.template_id == b.template_id
    &&& a.x == b.x
    &&& a.y == b.y
    &&& a.width == b.width
    &&& a.height == b.height
    &&& a.fields == b.fields
    &&& a.can_delete == b.can_delete
    &&& a.can_move == b.can_move
    &&& a.can_modify_connections == b.can_modify_connections
    &&& a.can_modify_fields == b.can_modify_fields
}

/// Adding connections to a node removes no node and changes nothing of a
/// node but its slots.
proof fn lemma_link_all_touches_only_slots(g: GraphView, iid: Seq<char>, cs: Seq<crate::config::InitialConnectionView>, h: Seq<char>)
    requires
        g.instances.dom().contains(h),
    ensures
        link_all(g, iid, cs).instances.dom().contains(h),
        same_but_slots(link_all(g, iid, cs).instances[h], g.instances[h]),
    decreases cs.len(),
{
    if cs.len() > 0 {
        match link_initial(g, iid, cs[0]) {
            None => {},
            Some(g1) => {
                assert(g1.instances.dom().contains(h));
                assert(same_but_slots(g1.instances[h], g.instances[h]));
                lemma_link_all_touches_only_slots(g1, iid, cs.drop_first(), h);
            },
        }
    }
}

/// Linking the initial nodes removes no node and changes nothing of a node
/// but its slots.
proof fn lemma_linking_touches_only_slots(
    g: GraphView,
    nodes: Seq<InitialNodeView>,
    ps: Seq<Option<(Seq<char>, NodeTemplateView)>>,
    h: Seq<char>,
)
    requires
        g.instances.dom().contains(h),
    ensures
        link_initial_nodes(g, nodes, ps).instances.dom().contains(h),
        same_but_slots(link_initial_nodes(g, nodes, ps).instances[h], g.instances[h]),
    decreases nodes.len(),
{
    if nodes.len() > 0 {
        let g1 = match ps[0] {
            Some((iid, _t)) => link_all(g, iid, nodes[0].initial_connections),
            None => g,
        };
        if let Some((iid, _t)) = ps[0] {
            lemma_link_all_touches_only_slots(g, iid, nodes[0].initial_connections, h);
        }
        lemma_linking_touches_only_slots(g1, nodes.drop_first(), ps.drop_first(), h);
    }
}

/// Placing the initial nodes stores initial node `i`, made from the
/// template it was placed with, unless a later initial node takes the same
/// id.
proof fn lemma_placing_stores_initial_node(
    g: GraphView,
    nodes: Seq<InitialNodeView>,
    ps: Seq<Option<(Seq<char>, NodeTemplateView)>>,
    i: int,
    iid: Seq<char>,
)
    requires
        ps.len() == nodes.len(),
        last_stored_as(ps, i, iid),
    ensures
        place_initial_nodes(g, nodes, ps).instances.dom().contains(iid),
        place_initial_nodes(g, nodes, ps).instances[iid] == initial_instance((ps[i]->0).1, iid, nodes[i]),
    decreases nodes.len(),
{
    if i < nodes.len() - 1 {
        assert(ps.drop_last()[i] == ps[i]);
        assert forall|j: int| i < j < ps.drop_last().len() implies !(#[trigger] ps.drop_last()[j] matches Some((x, _t)) && x == iid) by {
            assert(ps.drop_last()[j] == ps[j]);
        }
        lemma_placing_stores_initial_node(g, nodes.drop_last(), ps.drop_last(), i, iid);
        assert(nodes.drop_last()[i] == nodes[i]);
        assert(!(ps[ps.len() - 1] matches Some((x, _t)) && x == iid));
    }
}

/// Every node that setting up the initial nodes stores sits at its initial
/// node's coordinates, with its initial node's delete and move permissions,
/// and takes the template it was made from (its id, default width and
/// default height), unless a later initial node takes the same id.
pub proof fn law_initial_nodes_keep_their_settings(
    g0: GraphView,
    nodes: Seq<InitialNodeView>,
    ps: Seq<Option<(Seq<char>, NodeTemplateView)>>,
    i: int,
    iid: Seq<char>,
)
    requires
        ps.len() == nodes.len(),
        last_stored_as(ps, i, iid),
    ensures
        ({
            let g = link_initial_nodes(place_initial_nodes(g0, nodes, ps), nodes, ps);
            let t = (ps[i]->0).1;
            &&& g.instances.dom().contains(iid)
            &&& g.instances[iid].x == nodes[i].x
            &&& g.instances[iid].y == nodes[i].y
            &&& g.instances[iid].can_delete == nodes[i].can_delete
            &&& g.instances[iid].can_move == nodes[i].can_move
            &&& g.instances[iid].template_id == t.template_id
            &&& g.instances[iid].width == t.default_width
            &&& g.instances[iid].height == t.default_height
        }),
{
    lemma_placing_stores_initial_node(g0, nodes, ps, i, iid);
    lemma_linking_touches_only_slots(place_initial_nodes(g0, nodes, ps), nodes, ps, iid);
}

} // verus!
