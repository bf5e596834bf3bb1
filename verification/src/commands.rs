//! Commands: the graph operations a user interface issues, as values.
use vstd::prelude::*;
use crate::connect::{connect_post, delete_connection_post, slot_known};
use crate::creation::create_instance_post;
use crate::deletion::{delete_node_post, delete_slot_post, incoming_hosts_known, slot_clearing_ready, slots_have_templates};
use crate::errors::GraphResult;
use crate::fields::{field_update_refusal, update_field_post};
use crate::graph::{with_field_value, Graph, GraphView};
use crate::initial::lemma_relink_keeps_ready;
use crate::model::{slot_index, slot_with_template_id, Connection};
use crate::prune::prune;
use crate::seqs::lemma_first_index;

verus! {

/// One graph operation. Coordinates are bit patterns of the position.
#[derive(Clone, Debug)]
pub enum GraphCommand {
    DeleteNode(String),
    DeleteConnection(Connection),
    DeleteSlotConnections { node_id: String, slot_template_id: String },
    CreateConnection(Connection),
    CreateNode { template_id: String, x: u64, y: u64 },
    UpdateField { node_id: String, field_template_id: String, new_value: String },
}

/// What a command needs of the graph before it runs: a connection's host
/// slot must exist, and a new connection's target node too; deleting a node,
/// or clearing an incoming slot, needs every slot that holds a connection to
/// the node to have its slot template.
pub open spec fn command_ready(g: GraphView, c: GraphCommand) -> bool {
    match c {
        GraphCommand::CreateConnection(conn) => {
            &&& slot_known(g, conn@.host_node_id, conn@.host_slot_template_id)
            &&& g.instances.dom().contains(conn@.target_node_id)
        },
        GraphCommand::DeleteConnection(conn) => slot_known(g, conn@.host_node_id, conn@.host_slot_template_id),
        GraphCommand::DeleteNode(node_id) => incoming_hosts_known(g, node_id@),
        GraphCommand::DeleteSlotConnections { node_id, slot_template_id } => slot_clearing_ready(
            g,
            node_id@,
            slot_template_id@,
        ),
        _ => true,
    }
}

/// What running command `c` does: `old` and `new` are the graph before and
/// after and `r` the result; each command does what its operation does.
pub open spec fn command_post(old: GraphView, new: GraphView, c: GraphCommand, r: GraphResult<()>) -> bool {
    match c {
        GraphCommand::DeleteNode(node_id) => delete_node_post(old, new, node_id@, r),
        GraphCommand::DeleteConnection(conn) => delete_connection_post(old, new, conn, r),
        GraphCommand::DeleteSlotConnections { node_id, slot_template_id } => delete_slot_post(
            old,
            new,
            node_id@,
            slot_template_id@,
            r,
        ),
        GraphCommand::CreateConnection(conn) => connect_post(old, new, conn, r),
        GraphCommand::CreateNode { template_id, x, y } => match r {
            Ok(_) => exists|iid: String| #[trigger] create_instance_post(old, new, template_id@, x, y, None, Ok(iid)),
            Err(e) => create_instance_post(old, new, template_id@, x, y, None, Err(e)),
        },
        GraphCommand::UpdateField { node_id, field_template_id, new_value } => update_field_post(
            old,
            new,
            node_id@,
            field_template_id@,
            new_value@,
            r,
        ),
    }
}

/// Changing one field value leaves every slot covered by its slot template.
pub proof fn lemma_field_update_keeps_slot_templates(g: GraphView, node: Seq<char>, f: int, v: Seq<char>)
    requires
        slots_have_templates(g),
        g.instances.dom().contains(node),
    ensures
        slots_have_templates(
            GraphView {
                instances: g.instances.insert(node, with_field_value(g.instances[node], f, v)),
                ..g
            },
        ),
{
    let g2 = GraphView { instances: g.instances.insert(node, with_field_value(g.instances[node], f, v)), ..g };
    assert forall|h: Seq<char>, k: int|
        g2.instances.dom().contains(h) && 0 <= k < g2.instances[h].slots.len() implies crate::model::slot_template_by_id(
        crate::connect::node_template_of(g2, h),
        (#[trigger] g2.instances[h].slots[k]).slot_template_id,
    ) is Some by {
        assert(g.instances[h].slots[k] == g2.instances[h].slots[k]);
    }
}

/// A change of connections of a known slot leaves every slot covered by its
/// slot template.
proof fn lemma_slot_change_keeps_slot_templates(g: GraphView, host: Seq<char>, sid: Seq<char>, cs: Seq<crate::model::ConnectionView>)
    requires
        slots_have_templates(g),
        slot_known(g, host, sid),
    ensures
        slots_have_templates(
            GraphView {
                instances: g.instances.insert(
                    host,
                    crate::graph::with_slot_connections(g.instances[host], slot_index(g.instances[host], sid)->0, cs),
                ),
                ..g
            },
        ),
{
    lemma_first_index(g.instances[host].slots, slot_with_template_id(sid));
    lemma_relink_keeps_ready(g, host, slot_index(g.instances[host], sid)->0, cs, host);
}

impl Graph {
    /// Runs `command` by calling the operation it names.
    pub fn execute_command(&mut self, command: GraphCommand) -> (r: GraphResult<()>)
        requires
            old(self).wf(),
            command_ready(old(self)@, command),
        ensures
            final(self).wf(),
            slots_have_templates(old(self)@) ==> slots_have_templates(final(self)@),
            command_post(old(self)@, final(self)@, command, r),
    {
        let ghost g = self@;
        let ghost c = command;
        match command {
            GraphCommand::DeleteNode(node_id) => self.delete_node_instance(node_id.as_str()),
            GraphCommand::DeleteConnection(conn) => {
                let r = self.delete_connection(&conn);
                proof {
                    if r is Ok && slots_have_templates(g) {
                        let host = conn@.host_node_id;
                        lemma_slot_change_keeps_slot_templates(
                            g,
                            host,
                            conn@.host_slot_template_id,
                            crate::connect::retained_connections(
                                g.instances[host].slots[slot_index(g.instances[host], conn@.host_slot_template_id)->0].connections,
                                conn@.target_node_id,
                                conn@.target_slot_template_id,
                            ),
                        );
                    }
                }
                r
            },
            GraphCommand::DeleteSlotConnections { node_id, slot_template_id } => {
                let r = self.delete_slot_connections(node_id.as_str(), slot_template_id.as_str());
                proof {
                    if slots_have_templates(g) {
                    match crate::queries::slot_caps(g, node_id@, slot_template_id@) {
                        None => {},
                        Some((st, _)) => {
                            if crate::connect::slot_modifiable(g, node_id@, slot_template_id@) {
                                if st.slot_type == crate::model::SlotType::Incoming {
                                    crate::deletion::lemma_prune_keeps_slot_templates(g, crate::deletion::incoming_drop(g, node_id@));
                                } else {
                                    crate::deletion::lemma_prune_keeps_slot_templates(
                                        g,
                                        crate::deletion::slot_drop(g, node_id@, slot_template_id@),
                                    );
                                }
                            }
                        },
                    }
                    }
                }
                r
            },
            GraphCommand::CreateConnection(conn) => {
                let r = self.connect_slots(conn);
                proof {
                    if r is Ok && slots_have_templates(g) {
                        let host = c->CreateConnection_0@.host_node_id;
                        let sid = c->CreateConnection_0@.host_slot_template_id;
                        lemma_slot_change_keeps_slot_templates(
                            g,
                            host,
                            sid,
                            g.instances[host].slots[slot_index(g.instances[host], sid)->0].connections.push(c->CreateConnection_0@),
                        );
                    }
                }
                r
            },
            GraphCommand::CreateNode { template_id, x, y } => {
                match self.create_instance(template_id.as_str(), x, y, None) {
                    Ok(iid) => {
                        proof {
                            assert(create_instance_post(g, self@, template_id@, x, y, None, Ok(iid)));
                        }
                        Ok(())
                    },
                    Err(e) => Err(e),
                }
            },
            GraphCommand::UpdateField { node_id, field_template_id, new_value } => {
                let ghost nv = new_value@;
                let r = self.update_field(node_id.as_str(), field_template_id.as_str(), new_value);
                proof {
                    if field_update_refusal(g, node_id@, field_template_id@, nv) is None && slots_have_templates(g) {
                        let n = g.instances[node_id@];
                        let j = crate::seqs::first_index(n.fields, crate::model::field_with_template_id(field_template_id@))->0;
                        lemma_field_update_keeps_slot_templates(g, node_id@, j, nv);
                    }
                }
                r
            },
        }
    }
}

} // verus!
