//! The sample template every canvas registers: a node with eight outgoing
//! slots and one field of each type.
use vstd::prelude::*;
use vstd::string::*;
use crate::model::{
    field_template_views, slot_template_views, string_views, FieldTemplate, FieldTemplateView,
    FieldType, NodeTemplate, NodeTemplateView, SlotPosition, SlotTemplate, SlotTemplateView,
    SlotType, DEFAULT_NODE_HEIGHT_BITS, DEFAULT_NODE_WIDTH_BITS,
};

verus! {

/// An outgoing slot of the sample template: it may connect to templates
/// with id "test_node" or "Node" and holds two or three connections.
pub open spec fn sample_slot(id: Seq<char>, name: Seq<char>, position: SlotPosition) -> SlotTemplateView {
    SlotTemplateView {
        id,
        name,
        position,
        slot_type: SlotType::Outgoing,
        allowed_connections: seq!["test_node"@, "Node"@],
        min_connections: 2,
        max_connections: Some(3),
        can_modify_connections: true,
    }
}

/// The sample template.
pub open spec fn sample_template() -> NodeTemplateView {
    NodeTemplateView {
        template_id: "test_node"@,
        name: "Test Node"@,
        slot_templates: seq![
            sample_slot("first"@, "First"@, SlotPosition::Right),
            sample_slot("second"@, "Second"@, SlotPosition::Right),
            sample_slot("third"@, "Third"@, SlotPosition::Top),
            sample_slot("fourth"@, "Fourth"@, SlotPosition::Top),
            sample_slot("fifth"@, "Fifth"@, SlotPosition::Bottom),
            sample_slot("sixth"@, "Sixth"@, SlotPosition::Bottom),
            sample_slot("seventh"@, "Seventh"@, SlotPosition::Left),
            sample_slot("eigth"@, "Eigth"@, SlotPosition::Left),
        ],
        field_templates: seq![
            FieldTemplateView {
                id: "bool_field"@,
                name: "Active"@,
                field_type: FieldType::Boolean,
                default_value: "true"@,
            },
            FieldTemplateView {
                id: "int_field"@,
                name: "Count"@,
                field_type: FieldType::Integer,
                default_value: "42"@,
            },
            FieldTemplateView {
                id: "string_field"@,
                name: "Label"@,
                field_type: FieldType::String,
                default_value: "Test"@,
            },
        ],
        max_instances: None,
        min_instances: Some(1),
        can_delete: true,
        can_create: true,
        can_modify_slots: true,
        can_modify_fields: true,
        default_width: DEFAULT_NODE_WIDTH_BITS,
        default_height: DEFAULT_NODE_HEIGHT_BITS,
    }
}

fn sample_slot_template(id: &str, name: &str, position: SlotPosition) -> (r: SlotTemplate)
    ensures
        r@ == sample_slot(id@, name@, position),
{
    let mut allowed: Vec<String> = Vec::new();
    allowed.push(String::from_str("test_node"));
    allowed.push(String::from_str("Node"));
    proof {
        assert(string_views(allowed@) =~= seq!["test_node"@, "Node"@]);
    }
    SlotTemplate {
        id: String::from_str(id),
        name: String::from_str(name),
        position,
        slot_type: SlotType::Outgoing,
        allowed_connections: allowed,
        min_connections: 2,
        max_connections: Some(3),
        can_modify_connections: true,
    }
}

fn sample_field_template(id: &str, name: &str, field_type: FieldType, default_value: &str) -> (r: FieldTemplate)
    ensures
        r@ == (FieldTemplateView { id: id@, name: name@, field_type, default_value: default_value@ }),
{
    FieldTemplate {
        id: String::from_str(id),
        name: String::from_str(name),
        field_type,
        default_value: String::from_str(default_value),
    }
}

/// The sample template "Test Node" (id "test_node"): at least one instance
/// must remain; eight outgoing slots, two on each side, each taking two or
/// three connections to "test_node" or "Node" templates; a boolean, an
/// integer and a string field.
pub fn get_test_template() -> (r: NodeTemplate)
    ensures
        r@ == sample_template(),
{
    let mut slots: Vec<SlotTemplate> = Vec::new();
    slots.push(sample_slot_template("first", "First", SlotPosition::Right));
    slots.push(sample_slot_template("second", "Second", SlotPosition::Right));
    slots.push(sample_slot_template("third", "Third", SlotPosition::Top));
    slots.push(sample_slot_template("fourth", "Fourth", SlotPosition::Top));
    slots.push(sample_slot_template("fifth", "Fifth", SlotPosition::Bottom));
    slots.push(sample_slot_template("sixth", "Sixth", SlotPosition::Bottom));
    slots.push(sample_slot_template("seventh", "Seventh", SlotPosition::Left));
    slots.push(sample_slot_template("eigth", "Eigth", SlotPosition::Left));
    let mut fields: Vec<FieldTemplate> = Vec::new();
    fields.push(sample_field_template("bool_field", "Active", FieldType::Boolean, "true"));
    fields.push(sample_field_template("int_field", "Count", FieldType::Integer, "42"));
    fields.push(sample_field_template("string_field", "Label", FieldType::String, "Test"));
    proof {
        assert(slot_template_views(slots@) =~= sample_template().slot_templates);
        assert(field_template_views(fields@) =~= sample_template().field_templates);
    }
    NodeTemplate {
        can_modify_slots: true,
        min_instances: Some(1),
        max_instances: None,
        can_delete: true,
        can_create: true,
        template_id: String::from_str("test_node"),
        name: String::from_str("Test Node"),
        slot_templates: slots,
        field_templates: fields,
        default_width: DEFAULT_NODE_WIDTH_BITS,
        default_height: DEFAULT_NODE_HEIGHT_BITS,
        can_modify_fields: true,
    }
}

} // verus!
