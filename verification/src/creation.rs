//! Registering templates and creating node instances from them.
use vstd::prelude::*;
use vstd::string::*;
use crate::connect::node_template_of;
use crate::deletion::slots_have_templates;
use crate::errors::{GraphError, GraphResult};
use crate::graph::{instance_well_formed, slot_well_placed, Graph, GraphView};
use crate::ids::{generate_id, hyphenated_text};
use crate::model::{
    clone_slot_templates, field_instance_views, slot_instance_views, slot_template_by_id,
    slot_template_views, slot_template_with_id, ConnectionView, FieldInstance, FieldInstanceView,
    FieldTemplateView, NodeInstance, NodeInstanceView, NodeTemplate, NodeTemplateView,
    SlotInstance, SlotInstanceView, SlotPosition, SlotTemplate, SlotTemplateView, SlotType,
};
use crate::queries::template_admits_instance;
use crate::seqs::{lemma_first_index, lemma_first_index_is};

verus! {

/// The slot through which every node receives connections.
pub open spec fn incoming_slot_template() -> SlotTemplateView {
    SlotTemplateView {
        id: "incoming"@,
        name: "Incoming"@,
        position: SlotPosition::Left,
        slot_type: SlotType::Incoming,
        allowed_connections: Seq::empty(),
        min_connections: 0,
        max_connections: None,
        can_modify_connections: true,
    }
}

/// `t` with the incoming slot appended to its slot templates.
pub open spec fn with_incoming_slot(t: NodeTemplateView) -> NodeTemplateView {
    NodeTemplateView { slot_templates: t.slot_templates.push(incoming_slot_template()), ..t }
}

/// A slot made from slot template `st` for node `iid` of template `tid`,
/// without connections.
pub open spec fn fresh_slot(st: SlotTemplateView, tid: Seq<char>, iid: Seq<char>) -> SlotInstanceView {
    SlotInstanceView {
        slot_template_id: st.id,
        node_template_id: tid,
        node_instance_id: iid,
        connections: Seq::empty(),
        can_modify: true,
    }
}

/// One slot per slot template of `t`, in order, none with connections.
pub open spec fn fresh_slots(t: NodeTemplateView, iid: Seq<char>) -> Seq<SlotInstanceView> {
    Seq::new(t.slot_templates.len(), |k: int| fresh_slot(t.slot_templates[k], t.template_id, iid))
}

/// One field per field template of `t`, in order, each holding its default.
pub open spec fn default_fields(t: NodeTemplateView, iid: Seq<char>) -> Seq<FieldInstanceView> {
    Seq::new(
        t.field_templates.len(),
        |k: int|
            FieldInstanceView {
                node_instance_id: iid,
                field_template_id: t.field_templates[k].id,
                value: t.field_templates[k].default_value,
                can_modify: true,
            },
    )
}

/// The node that `create_instance` makes from template `t`.
pub open spec fn instance_from_template(t: NodeTemplateView, iid: Seq<char>, x: u64, y: u64) -> NodeInstanceView {
    NodeInstanceView {
        instance_id: iid,
        template_id: t.template_id,
        x,
        y,
        width: t.default_width,
        height: t.default_height,
        slots: fresh_slots(t, iid),
        fields: default_fields(t, iid),
        can_delete: true,
        can_move: true,
        can_modify_connections: true,
        can_modify_fields: true,
    }
}

/// Node `n`'s slots are made from the slot templates of `t`, one each, in order.
pub open spec fn slots_follow_template(n: NodeInstanceView, t: NodeTemplateView) -> bool {
    &&& n.slots.len() == t.slot_templates.len()
    &&& forall|k: int| 0 <= k < n.slots.len() ==> (#[trigger] n.slots[k]).slot_template_id == t.slot_templates[k].id
}

/// A node whose slots follow its template finds a slot template for each slot.
pub proof fn lemma_follow_has_templates(n: NodeInstanceView, t: NodeTemplateView, k: int)
    requires
        slots_follow_template(n, t),
        0 <= k < n.slots.len(),
    ensures
        slot_template_by_id(t, n.slots[k].slot_template_id) is Some,
{
    let p = slot_template_with_id(n.slots[k].slot_template_id);
    assert(p(t.slot_templates[k]));
    lemma_first_index(t.slot_templates, p);
}

/// Builds the slots of a new node from the slot templates of `template`.
pub fn make_slots(template: &NodeTemplate, template_id: &str, instance_id: &String) -> (r: Vec<SlotInstance>)
    requires
        template@.template_id == template_id@,
    ensures
        slot_instance_views(r@) == fresh_slots(template@, instance_id@),
{
    let mut r: Vec<SlotInstance> = Vec::new();
    let n = template.slot_templates.len();
    let mut k: usize = 0;
    while k < n
        invariant
            n == template.slot_templates@.len(),
            template@.template_id == template_id@,
            k <= n,
            slot_instance_views(r@) == fresh_slots(template@, instance_id@).take(k as int),
        decreases n - k,
    {
        let ghost before = r@;
        let slot = SlotInstance {
            node_instance_id: instance_id.clone(),
            node_template_id: String::from_str(template_id),
            slot_template_id: template.slot_templates[k].id.clone(),
            connections: Vec::new(),
            can_modify: true,
        };
        proof {
            assert(crate::model::connection_views(slot.connections@) =~= Seq::<ConnectionView>::empty());
            assert(template@.slot_templates[k as int] == template.slot_templates@[k as int]@);
        }
        proof {
            assert(slot@ == fresh_slot(template@.slot_templates[k as int], template@.template_id, instance_id@));
        }
        r.push(slot);
        proof {
            assert(slot_instance_views(r@) =~= slot_instance_views(before).push(slot@));
            assert(fresh_slots(template@, instance_id@).take(k + 1) =~= fresh_slots(template@, instance_id@).take(k as int).push(slot@));
        }
        k = k + 1;
    }
    proof {
        assert(fresh_slots(template@, instance_id@).take(n as int) =~= fresh_slots(template@, instance_id@));
    }
    r
}

/// Builds the fields of a new node, each holding its template's default.
pub fn make_default_fields(template: &NodeTemplate, instance_id: &String) -> (r: Vec<FieldInstance>)
    ensures
        field_instance_views(r@) == default_fields(template@, instance_id@),
{
    let mut r: Vec<FieldInstance> = Vec::new();
    let n = template.field_templates.len();
    let mut k: usize = 0;
    while k < n
        invariant
            n == template.field_templates@.len(),
            k <= n,
            field_instance_views(r@) == default_fields(template@, instance_id@).take(k as int),
        decreases n - k,
    {
        let field = FieldInstance {
            node_instance_id: instance_id.clone(),
            field_template_id: template.field_templates[k].id.clone(),
            value: template.field_templates[k].default_value.clone(),
            can_modify: true,
        };
        proof {
            assert(template@.field_templates[k as int] == template.field_templates@[k as int]@);
        }
        let ghost before = r@;
        r.push(field);
        proof {
            assert(field_instance_views(r@) =~= field_instance_views(before).push(field@));
            assert(default_fields(template@, instance_id@).take(k + 1) =~= default_fields(template@, instance_id@).take(k as int).push(field@));
        }
        k = k + 1;
    }
    proof {
        assert(default_fields(template@, instance_id@).take(n as int) =~= default_fields(template@, instance_id@));
    }
    r
}

/// A node made from a registered template is well formed and its slots follow
/// the template.
pub proof fn lemma_fresh_instance_ok(g: GraphView, t: NodeTemplateView, n: NodeInstanceView)
    requires
        g.templates.dom().contains(t.template_id),
        n.template_id == t.template_id,
        n.slots == fresh_slots(t, n.instance_id),
    ensures
        instance_well_formed(g, n),
        slots_follow_template(n, t),
{
    assert forall|k: int| 0 <= k < n.slots.len() implies slot_well_placed(n, #[trigger] n.slots[k]) by {}
}

/// Adding a node whose slots follow its (registered) template keeps every slot
/// covered by a slot template.
pub proof fn lemma_insert_keeps_slot_templates(g: GraphView, n: NodeInstanceView, g2: GraphView)
    requires
        slots_have_templates(g),
        g.templates.dom().contains(n.template_id),
        slots_follow_template(n, g.templates[n.template_id]),
        g2.templates == g.templates,
        g2.instances == g.instances.insert(n.instance_id, n),
    ensures
        slots_have_templates(g2),
{
    assert forall|h: Seq<char>, k: int|
        g2.instances.dom().contains(h) && 0 <= k < g2.instances[h].slots.len() implies slot_template_by_id(
        node_template_of(g2, h),
        (#[trigger] g2.instances[h].slots[k]).slot_template_id,
    ) is Some by {
        if h == n.instance_id {
            lemma_follow_has_templates(n, g.templates[n.template_id], k);
        } else {
            assert(g.instances[h].slots[k] == g2.instances[h].slots[k]);
        }
    }
}

/// What `create_instance` does: `old` and `new` are the graph before and
/// after, `tid` the template id, `id` the requested instance id and `r` the
/// result.
pub open spec fn create_instance_post(
    old: GraphView,
    new: GraphView,
    tid: Seq<char>,
    x: u64,
    y: u64,
    id: Option<Seq<char>>,
    r: GraphResult<String>,
) -> bool {
    if !old.templates.dom().contains(tid) {
        &&& r matches Err(GraphError::NodeCreationFailed { node_template_id, node_template_name, reason })
        &&& node_template_id@ == tid && node_template_name@ == "?"@
        &&& *reason matches GraphError::TemplateNotFound(t) && t@ == tid
        &&& new == old
    } else {
        let t = old.templates[tid];
        if !template_admits_instance(old, tid) {
            &&& r matches Err(GraphError::NodeCreationFailed { node_template_id, node_template_name, reason })
            &&& node_template_id@ == tid && node_template_name@ == t.name
            &&& crate::errors::is_other(*reason, "Maximum instances reached"@)
            &&& new == old
        } else if !t.can_create {
            &&& r matches Err(GraphError::NodeCreationFailed { node_template_id, node_template_name, reason })
            &&& node_template_id@ == tid && node_template_name@ == t.name
            &&& crate::errors::is_other(*reason, "Template cannot be created"@)
            &&& new == old
        } else {
            &&& r matches Ok(iid)
            &&& (id matches Some(given) ==> iid@ == given)
            &&& (id is None ==> exists|v: u128| iid@ == hyphenated_text(v))
            &&& new.templates == old.templates
            &&& new.instances == old.instances.insert(iid@, instance_from_template(t, iid@, x, y))
        }
    }
}

/// The node that `NodeInstance::new` makes from template `t`: the slots of
/// `t` followed by a slot for the incoming slot template.
pub open spec fn new_instance_view(t: NodeTemplateView, iid: Seq<char>, x: u64, y: u64) -> NodeInstanceView {
    NodeInstanceView {
        slots: fresh_slots(t, iid).push(fresh_slot(incoming_slot_template(), t.template_id, iid)),
        ..instance_from_template(t, iid, x, y)
    }
}

impl NodeInstance {
    /// A node of `template` under id `instance_id` at (`x`, `y`): one empty
    /// slot per slot template plus the incoming slot, and each field at its
    /// default value.
    pub fn new(template: &NodeTemplate, instance_id: String, x: u64, y: u64) -> (r: Self)
        ensures
            r@ == new_instance_view(template@, instance_id@, x, y),
            r.x == x,
            r.y == y,
            r.width == template.default_width,
            r.height == template.default_height,
    {
        let mut slots = make_slots(template, template.template_id.as_str(), &instance_id);
        let incoming = SlotInstance {
            node_instance_id: instance_id.clone(),
            node_template_id: template.template_id.clone(),
            slot_template_id: String::from_str("incoming"),
            connections: Vec::new(),
            can_modify: true,
        };
        proof {
            assert(crate::model::connection_views(incoming.connections@) =~= Seq::<ConnectionView>::empty());
            assert(incoming@ == fresh_slot(incoming_slot_template(), template@.template_id, instance_id@));
        }
        let ghost before = slots@;
        slots.push(incoming);
        proof {
            assert(slot_instance_views(slots@) =~= slot_instance_views(before).push(incoming@));
        }
        let fields = make_default_fields(template, &instance_id);
        NodeInstance {
            instance_id,
            template_id: template.template_id.clone(),
            x,
            y,
            width: template.default_width,
            height: template.default_height,
            slots,
            fields,
            can_delete: true,
            can_move: true,
            can_modify_connections: true,
            can_modify_fields: true,
        }
    }
}

impl Graph {
    /// Registers `template` with the incoming slot appended to its slot
    /// templates, replacing any template with the same id.
    pub fn register_template(&mut self, template: NodeTemplate)
        requires
            old(self).wf(),
        ensures
            final(self).wf(),
            final(self)@.templates == old(self)@.templates.insert(
                template@.template_id,
                with_incoming_slot(template@),
            ),
            final(self)@.instances == old(self)@.instances,
            slots_have_templates(old(self)@) && (forall|h: Seq<char>| #[trigger]
                old(self)@.instances.dom().contains(h) ==> old(self)@.instances[h].template_id
                    != template@.template_id) ==> slots_have_templates(final(self)@),
    {
        let ghost tv = template@;
        let mut new_slots = clone_slot_templates(&template.slot_templates);
        let incoming = SlotTemplate {
            id: String::from_str("incoming"),
            name: String::from_str("Incoming"),
            position: SlotPosition::Left,
            slot_type: SlotType::Incoming,
            allowed_connections: Vec::new(),
            min_connections: 0,
            max_connections: None,
            can_modify_connections: true,
        };
        proof {
            assert(crate::model::string_views(incoming.allowed_connections@) =~= Seq::<Seq<char>>::empty());
        }
        let ghost before = new_slots@;
        new_slots.push(incoming);
        proof {
            assert(slot_template_views(new_slots@) =~= slot_template_views(before).push(incoming_slot_template()));
        }
        let template_with_incoming_slot = NodeTemplate {
            template_id: template.template_id,
            name: template.name,
            slot_templates: new_slots,
            field_templates: template.field_templates,
            max_instances: template.max_instances,
            min_instances: template.min_instances,
            can_delete: template.can_delete,
            can_create: template.can_create,
            can_modify_slots: template.can_modify_slots,
            can_modify_fields: template.can_modify_fields,
            default_width: template.default_width,
            default_height: template.default_height,
        };
        proof {
            assert(template_with_incoming_slot@ == with_incoming_slot(tv));
        }
        let ghost g0 = self@;
        self.put_template(template_with_incoming_slot);
        proof {
            if slots_have_templates(g0) && (forall|h: Seq<char>| #[trigger] g0.instances.dom().contains(h) ==> g0.instances[h].template_id != tv.template_id) {
                assert forall|h: Seq<char>, k: int|
                    self@.instances.dom().contains(h) && 0 <= k < self@.instances[h].slots.len() implies slot_template_by_id(
                    node_template_of(self@, h),
                    (#[trigger] self@.instances[h].slots[k]).slot_template_id,
                ) is Some by {
                    assert(g0.instances[h].slots[k] == self@.instances[h].slots[k]);
                }
            }
        }
    }

    /// Creates a node from template `node_template_id` at (`x`, `y`), under
    /// id `id` or a freshly generated one, when the template exists, admits
    /// one more instance, and may be instantiated. A node with the same id is
    /// replaced.
    pub fn create_instance(&mut self, node_template_id: &str, x: u64, y: u64, id: Option<String>) -> (r: GraphResult<String>)
        requires
            old(self).wf(),
        ensures
            final(self).wf(),
            slots_have_templates(old(self)@) ==> slots_have_templates(final(self)@),
            create_instance_post(
                old(self)@,
                final(self)@,
                node_template_id@,
                x,
                y,
                match id {
                    Some(given) => Some(given@),
                    None => None,
                },
                r,
            ),
            r matches Ok(iid) ==> {
                &&& final(self)@.instances.dom().contains(iid@)
                &&& final(self)@.instances[iid@].template_id == node_template_id@
                &&& final(self)@.instances[iid@].x == x
                &&& final(self)@.instances[iid@].y == y
                &&& final(self)@.instances[iid@].width == old(self)@.templates[node_template_id@].default_width
                &&& final(self)@.instances[iid@].height == old(self)@.templates[node_template_id@].default_height
                &&& final(self)@.instances[iid@].can_delete && final(self)@.instances[iid@].can_move
                &&& final(self)@.instances[iid@].can_modify_connections && final(self)@.instances[iid@].can_modify_fields
                &&& final(self)@.instances[iid@].slots.len() == old(self)@.templates[node_template_id@].slot_templates.len()
                &&& forall|k: int| 0 <= k < final(self)@.instances[iid@].slots.len() ==> {
                    &&& (#[trigger] final(self)@.instances[iid@].slots[k]).connections.len() == 0
                    &&& final(self)@.instances[iid@].slots[k].slot_template_id
                        == old(self)@.templates[node_template_id@].slot_templates[k].id
                }
                &&& final(self)@.instances[iid@].fields.len() == old(self)@.templates[node_template_id@].field_templates.len()
                &&& forall|k: int| 0 <= k < final(self)@.instances[iid@].fields.len() ==>
                    (#[trigger] final(self)@.instances[iid@].fields[k]).value
                        == old(self)@.templates[node_template_id@].field_templates[k].default_value
            },
    {
        proof {
            self.lemma_wf();
        }
        let template = match self.template(node_template_id) {
            Some(template) => template,
            None => {
                return Err(
                    GraphError::NodeCreationFailed {
                        node_template_id: String::from_str(node_template_id),
                        node_template_name: String::from_str("?"),
                        reason: Box::new(GraphError::TemplateNotFound(String::from_str(node_template_id))),
                    },
                );
            },
        };
        if !self.node_template_can_add_instance(node_template_id) {
            return Err(
                GraphError::NodeCreationFailed {
                    node_template_id: String::from_str(node_template_id),
                    node_template_name: template.name.clone(),
                    reason: Box::new(crate::errors::other("Maximum instances reached")),
                },
            );
        }
        if !template.can_create {
            return Err(
                GraphError::NodeCreationFailed {
                    node_template_id: String::from_str(node_template_id),
                    node_template_name: template.name.clone(),
                    reason: Box::new(crate::errors::other("Template cannot be created")),
                },
            );
        }
        let instance_id = match id {
            Some(given) => given,
            None => generate_id(),
        };
        let slots = make_slots(template, node_template_id, &instance_id);
        let fields = make_default_fields(template, &instance_id);
        let instance = NodeInstance {
            instance_id: instance_id.clone(),
            template_id: String::from_str(node_template_id),
            x,
            y,
            width: template.default_width,
            height: template.default_height,
            slots,
            fields,
            can_delete: true,
            can_move: true,
            can_modify_connections: true,
            can_modify_fields: true,
        };
        let ghost g0 = self@;
        proof {
            assert(instance@ == instance_from_template(template@, instance_id@, x, y));
            lemma_fresh_instance_ok(g0, template@, instance@);
        }
        self.put_instance(instance);
        proof {
            if slots_have_templates(g0) {
                lemma_insert_keeps_slot_templates(g0, instance_from_template(template@, instance_id@, x, y), self@);
            }
        }
        Ok(instance_id)
    }
}

} // verus!
