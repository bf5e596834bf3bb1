//! The context menu: what it is opened on, its title, and the command each of
//! its actions issues.
use vstd::prelude::*;
use vstd::string::*;
use crate::commands::GraphCommand;
use crate::decimal::{i32_text, signed_decimal};
use crate::fields::{i32_text_value, parse_i32};
use crate::graph::{Graph, GraphView};
use crate::model::{
    FieldType, field_template_with_id, field_with_template_id, slot_index, slot_template_by_id, Connection,
};
use crate::seqs::{first_index, lemma_first_index};
use crate::text::{concat, str_eq};

verus! {

/// What the pointer does on the canvas: select and connect, or place nodes.
#[derive(Clone, Copy, Debug, PartialEq, Eq, Structural)]
pub enum InteractionMode {
    Default,
    AddNode,
}

/// What a context menu was opened on.
#[derive(Debug)]
pub enum ContextMenuTarget {
    Node(String),
    Connection(Connection),
    Slot { node_id: String, slot_template_id: String },
    Field { node_id: String, field_template_id: String },
}

impl Clone for ContextMenuTarget {
    fn clone(&self) -> (r: Self)
        ensures
            r == *self,
    {
        match self {
            ContextMenuTarget::Node(n) => ContextMenuTarget::Node(n.clone()),
            ContextMenuTarget::Connection(c) => ContextMenuTarget::Connection(c.clone()),
            ContextMenuTarget::Slot { node_id, slot_template_id } => ContextMenuTarget::Slot {
                node_id: node_id.clone(),
                slot_template_id: slot_template_id.clone(),
            },
            ContextMenuTarget::Field { node_id, field_template_id } => ContextMenuTarget::Field {
                node_id: node_id.clone(),
                field_template_id: field_template_id.clone(),
            },
        }
    }
}

/// What an entry of a context menu does.
#[derive(Clone, Debug)]
pub enum ContextMenuAction {
    Delete,
    DeleteAllSlotConnections,
    EditField,
    SetBooleanField(bool),
    SetIntegerField(i32),
    SetStringField(String),
}

/// The title of a menu opened on `t`: the kind of target and the name of its
/// template, or "Unknown ..." when the target cannot be found.
pub open spec fn menu_title(g: GraphView, t: ContextMenuTarget) -> Seq<char> {
    match t {
        ContextMenuTarget::Node(id) => {
            if g.instances.dom().contains(id@) && g.templates.dom().contains(g.instances[id@].template_id) {
                "Node: "@ + g.templates[g.instances[id@].template_id].name
            } else {
                "Unknown Node"@
            }
        },
        ContextMenuTarget::Connection(_) => "Connection"@,
        ContextMenuTarget::Slot { node_id, slot_template_id } => {
            if g.instances.dom().contains(node_id@) && slot_index(g.instances[node_id@], slot_template_id@) is Some
                && g.templates.dom().contains(g.instances[node_id@].template_id) && slot_template_by_id(
                g.templates[g.instances[node_id@].template_id],
                slot_template_id@,
            ) is Some {
                "Slot: "@ + slot_template_by_id(g.templates[g.instances[node_id@].template_id], slot_template_id@)->0.name
            } else {
                "Unknown Slot"@
            }
        },
        ContextMenuTarget::Field { node_id, field_template_id } => {
            if g.instances.dom().contains(node_id@) && first_index(
                g.instances[node_id@].fields,
                field_with_template_id(field_template_id@),
            ) is Some && g.templates.dom().contains(g.instances[node_id@].template_id) && first_index(
                g.templates[g.instances[node_id@].template_id].field_templates,
                field_template_with_id(field_template_id@),
            ) is Some {
                "Field: "@ + g.templates[g.instances[node_id@].template_id].field_templates[first_index(
                    g.templates[g.instances[node_id@].template_id].field_templates,
                    field_template_with_id(field_template_id@),
                )->0].name
            } else {
                "Unknown Field"@
            }
        },
    }
}

impl ContextMenuTarget {
    /// The title of a menu opened on this target.
    pub fn get_title(&self, graph: &Graph) -> (r: String)
        requires
            graph.wf(),
        ensures
            r@ == menu_title(graph@, *self),
    {
        match self {
            ContextMenuTarget::Node(node_id) => {
                if let Some(node) = graph.instance(node_id.as_str()) {
                    if let Some(template) = graph.template(node.template_id.as_str()) {
                        return concat("Node: ", template.name.as_str());
                    }
                }
                String::from_str("Unknown Node")
            },
            ContextMenuTarget::Connection(_) => String::from_str("Connection"),
            ContextMenuTarget::Slot { node_id, slot_template_id } => {
                if let Some(node) = graph.instance(node_id.as_str()) {
                    if let Some(k) = node.slot_index(slot_template_id.as_str()) {
                        if let Some(template) = graph.template(node.template_id.as_str()) {
                            proof {
                                let p = crate::model::slot_with_template_id(slot_template_id@);
                                lemma_first_index(node@.slots, p);
                                assert(node.slots@[k as int]@ == node@.slots[k as int]);
                            }
                            if let Some(si) = template.slot_template_index(node.slots[k].slot_template_id.as_str()) {
                                proof {
                                    assert(template.slot_templates@[si as int]@ == template@.slot_templates[si as int]);
                                }
                                return concat("Slot: ", template.slot_templates[si].name.as_str());
                            }
                        }
                    }
                }
                String::from_str("Unknown Slot")
            },
            ContextMenuTarget::Field { node_id, field_template_id } => {
                if let Some(node) = graph.instance(node_id.as_str()) {
                    if let Some(f) = node.field_index(field_template_id.as_str()) {
                        if let Some(template) = graph.template(node.template_id.as_str()) {
                            proof {
                                let p = field_with_template_id(field_template_id@);
                                lemma_first_index(node@.fields, p);
                                assert(node.fields@[f as int]@ == node@.fields[f as int]);
                            }
                            if let Some(fi) = template.field_template_index(node.fields[f].field_template_id.as_str()) {
                                proof {
                                    assert(template.field_templates@[fi as int]@ == template@.field_templates[fi as int]);
                                }
                                return concat("Field: ", template.field_templates[fi].name.as_str());
                            }
                        }
                    }
                }
                String::from_str("Unknown Field")
            },
        }
    }
}

/// The command that action `action` issues on target `target`: deleting a
/// node or a connection, clearing a slot, or setting a field (booleans as
/// "true" or "false", integers in decimal). Other pairs issue none.
pub open spec fn menu_command(action: ContextMenuAction, target: ContextMenuTarget, cmd: Option<GraphCommand>) -> bool {
    match (action, target) {
        (ContextMenuAction::Delete, ContextMenuTarget::Node(node_id)) => cmd matches Some(
            GraphCommand::DeleteNode(id),
        ) && id@ == node_id@,
        (ContextMenuAction::Delete, ContextMenuTarget::Connection(c)) => cmd matches Some(
            GraphCommand::DeleteConnection(d),
        ) && d@ == c@,
        (
            ContextMenuAction::DeleteAllSlotConnections,
            ContextMenuTarget::Slot { node_id, slot_template_id },
        ) => cmd matches Some(GraphCommand::DeleteSlotConnections { node_id: n, slot_template_id: s })
            && n@ == node_id@ && s@ == slot_template_id@,
        (ContextMenuAction::SetBooleanField(b), ContextMenuTarget::Field { node_id, field_template_id }) => cmd matches Some(
            GraphCommand::UpdateField { node_id: n, field_template_id: f, new_value },
        ) && n@ == node_id@ && f@ == field_template_id@ && new_value@ == (if b {
            "true"@
        } else {
            "false"@
        }),
        (ContextMenuAction::SetIntegerField(v), ContextMenuTarget::Field { node_id, field_template_id }) => cmd matches Some(
            GraphCommand::UpdateField { node_id: n, field_template_id: f, new_value },
        ) && n@ == node_id@ && f@ == field_template_id@ && new_value@ == signed_decimal(v as int),
        (ContextMenuAction::SetStringField(v), ContextMenuTarget::Field { node_id, field_template_id }) => cmd matches Some(
            GraphCommand::UpdateField { node_id: n, field_template_id: f, new_value },
        ) && n@ == node_id@ && f@ == field_template_id@ && new_value@ == v@,
        _ => cmd is None,
    }
}

/// The command that a context menu action issues on its target, if any.
pub fn context_menu_command(action: ContextMenuAction, target: &ContextMenuTarget) -> (r: Option<GraphCommand>)
    ensures
        menu_command(action, *target, r),
{
    match (action, target) {
        (ContextMenuAction::Delete, ContextMenuTarget::Node(node_id)) => Some(GraphCommand::DeleteNode(node_id.clone())),
        (ContextMenuAction::Delete, ContextMenuTarget::Connection(connection)) => Some(
            GraphCommand::DeleteConnection(connection.clone()),
        ),
        (
            ContextMenuAction::DeleteAllSlotConnections,
            ContextMenuTarget::Slot { node_id, slot_template_id },
        ) => Some(
            GraphCommand::DeleteSlotConnections { node_id: node_id.clone(), slot_template_id: slot_template_id.clone() },
        ),
        (ContextMenuAction::SetBooleanField(value), ContextMenuTarget::Field { node_id, field_template_id }) => {
            let value_str = if value {
                String::from_str("true")
            } else {
                String::from_str("false")
            };
            Some(
                GraphCommand::UpdateField {
                    node_id: node_id.clone(),
                    field_template_id: field_template_id.clone(),
                    new_value: value_str,
                },
            )
        },
        (ContextMenuAction::SetIntegerField(value), ContextMenuTarget::Field { node_id, field_template_id }) => Some(
            GraphCommand::UpdateField {
                node_id: node_id.clone(),
                field_template_id: field_template_id.clone(),
                new_value: i32_text(value),
            },
        ),
        (ContextMenuAction::SetStringField(value), ContextMenuTarget::Field { node_id, field_template_id }) => Some(
            GraphCommand::UpdateField {
                node_id: node_id.clone(),
                field_template_id: field_template_id.clone(),
                new_value: value,
            },
        ),
        _ => None,
    }
}

/// A rectangle on the canvas; coordinates and sizes are bit patterns.
#[derive(Clone, Copy, Debug)]
pub struct Rectangle {
    pub x: u64,
    pub y: u64,
    pub width: u64,
    pub height: u64,
}

/// An entry of a context menu: its label, what it does, its colour, and
/// where it was drawn, once it has been.
#[derive(Clone, Debug)]
pub struct ContextMenuItem {
    pub label: String,
    pub action: ContextMenuAction,
    pub color: String,
    pub bounds: Option<Rectangle>,
}

/// `item` is the entry labelled `label` for `action` in colour `color`, not
/// yet drawn.
pub open spec fn item_is(item: ContextMenuItem, label: Seq<char>, action: ContextMenuAction, color: Seq<char>) -> bool {
    &&& item.label@ == label
    &&& item.action == action
    &&& item.color@ == color
    &&& item.bounds is None
}

/// The field template and the field that a field menu is about, or why they
/// cannot be found.
pub open spec fn menu_field(g: GraphView, node: Seq<char>, ftid: Seq<char>) -> Result<(crate::model::FieldTemplateView, crate::model::FieldInstanceView), Seq<char>> {
    if !g.instances.dom().contains(node) {
        Err("Node not found"@)
    } else if !g.templates.dom().contains(g.instances[node].template_id) {
        Err("Template not found"@)
    } else {
        let t = g.templates[g.instances[node].template_id];
        match first_index(t.field_templates, field_template_with_id(ftid)) {
            None => Err("Field template not found"@),
            Some(i) => match first_index(g.instances[node].fields, field_with_template_id(ftid)) {
                None => Err("Field not found"@),
                Some(j) => Ok((t.field_templates[i], g.instances[node].fields[j])),
            },
        }
    }
}

/// The number an integer field shows: its value read as an `i32`, or 0.
pub open spec fn shown_integer(value: Seq<char>) -> i32 {
    match i32_text_value(value) {
        Some(v) => v,
        None => 0,
    }
}

/// The number of an integer field that a menu on `t` would step from lies
/// strictly between the bounds of `i32`.
pub open spec fn menu_steps_in_range(g: GraphView, t: ContextMenuTarget) -> bool {
    match t {
        ContextMenuTarget::Field { node_id, field_template_id } => match menu_field(g, node_id@, field_template_id@) {
            Ok((ft, f)) => ft.field_type == crate::model::FieldType::Integer ==> i32::MIN < shown_integer(f.value) < i32::MAX,
            Err(_) => true,
        },
        _ => true,
    }
}

/// The entries of a menu opened on `t`.
pub open spec fn menu_items(g: GraphView, t: ContextMenuTarget, r: Result<Vec<ContextMenuItem>, String>) -> bool {
    let red = "#ff0000"@;
    let blue = "#0077ff"@;
    let grey = "#444444"@;
    match t {
        ContextMenuTarget::Node(_) => r matches Ok(items) && items@.len() == 1 && item_is(items@[0], "Delete Node"@, ContextMenuAction::Delete, red),
        ContextMenuTarget::Connection(_) => r matches Ok(items) && items@.len() == 1 && item_is(
            items@[0],
            "Delete Connection"@,
            ContextMenuAction::Delete,
            red,
        ),
        ContextMenuTarget::Slot { .. } => r matches Ok(items) && items@.len() == 1 && item_is(
            items@[0],
            "Delete All Connections"@,
            ContextMenuAction::DeleteAllSlotConnections,
            red,
        ),
        ContextMenuTarget::Field { node_id, field_template_id } => match menu_field(g, node_id@, field_template_id@) {
            Err(msg) => r matches Err(m) && m@ == msg,
            Ok((ft, f)) => match ft.field_type {
                crate::model::FieldType::Boolean => r matches Ok(items) && items@.len() == 2 && item_is(
                    items@[0],
                    "Set True"@,
                    ContextMenuAction::SetBooleanField(true),
                    blue,
                ) && item_is(items@[1], "Set False"@, ContextMenuAction::SetBooleanField(false), blue),
                crate::model::FieldType::Integer => {
                    let v = shown_integer(f.value);
                    r matches Ok(items) && items@.len() == 3 && items@[0].action == ContextMenuAction::EditField
                        && items@[0].color@ == grey && items@[0].bounds is None
                        && items@[0].label@.len() >= 9 && items@[0].label@.take(9) == "Current: "@
                        && items@[0].label@ == "Current: "@ + signed_decimal(v as int)
                        && item_is(items@[1], "Increment (+1)"@, ContextMenuAction::SetIntegerField((v + 1) as i32), blue)
                        && item_is(items@[2], "Decrement (-1)"@, ContextMenuAction::SetIntegerField((v - 1) as i32), blue)
                },
                crate::model::FieldType::String => r matches Ok(items) && items@.len() == 1 && item_is(
                    items@[0],
                    "Current: "@ + f.value,
                    ContextMenuAction::EditField,
                    grey,
                ),
            },
        },
    }
}

fn menu_item(label: &str, action: ContextMenuAction, color: &str) -> (r: ContextMenuItem)
    ensures
        item_is(r, label@, action, color@),
{
    ContextMenuItem { label: String::from_str(label), action, color: String::from_str(color), bounds: None }
}

/// The entries of a context menu opened on `target`: deleting a node or a
/// connection, clearing a slot, or, for a field, setting a boolean, stepping
/// an integer, or showing a string.
pub fn get_context_menu_items(target: &ContextMenuTarget, graph: &Graph) -> (r: Result<Vec<ContextMenuItem>, String>)
    requires
        graph.wf(),
        menu_steps_in_range(graph@, *target),
    ensures
        menu_items(graph@, *target, r),
{
    match target {
        ContextMenuTarget::Node(_) => {
            let mut items: Vec<ContextMenuItem> = Vec::new();
            items.push(menu_item("Delete Node", ContextMenuAction::Delete, "#ff0000"));
            Ok(items)
        },
        ContextMenuTarget::Connection(_) => {
            let mut items: Vec<ContextMenuItem> = Vec::new();
            items.push(menu_item("Delete Connection", ContextMenuAction::Delete, "#ff0000"));
            Ok(items)
        },
        ContextMenuTarget::Slot { .. } => {
            let mut items: Vec<ContextMenuItem> = Vec::new();
            items.push(menu_item("Delete All Connections", ContextMenuAction::DeleteAllSlotConnections, "#ff0000"));
            Ok(items)
        },
        ContextMenuTarget::Field { node_id, field_template_id } => {
            let node = match graph.instance(node_id.as_str()) {
                Some(node) => node,
                None => {
                    return Err(String::from_str("Node not found"));
                },
            };
            let template = match graph.template(node.template_id.as_str()) {
                Some(template) => template,
                None => {
                    return Err(String::from_str("Template not found"));
                },
            };
            let ti = match template.field_template_index(field_template_id.as_str()) {
                Some(ti) => ti,
                None => {
                    return Err(String::from_str("Field template not found"));
                },
            };
            let fi = match node.field_index(field_template_id.as_str()) {
                Some(fi) => fi,
                None => {
                    return Err(String::from_str("Field not found"));
                },
            };
            proof {
                assert(template.field_templates@[ti as int]@ == template@.field_templates[ti as int]);
                assert(node.fields@[fi as int]@ == node@.fields[fi as int]);
            }
            let mut items: Vec<ContextMenuItem> = Vec::new();
            match template.field_templates[ti].field_type {
                FieldType::Boolean => {
                    items.push(menu_item("Set True", ContextMenuAction::SetBooleanField(true), "#0077ff"));
                    items.push(menu_item("Set False", ContextMenuAction::SetBooleanField(false), "#0077ff"));
                },
                FieldType::Integer => {
                    let current_value = match parse_i32(node.fields[fi].value.as_str()) {
                        Some(v) => v,
                        None => 0,
                    };
                    let text = i32_text(current_value);
                    let label = concat("Current: ", text.as_str());
                    proof {
                        reveal_strlit("Current: ");
                        assert(label@.len() >= 9);
                        assert(label@.take(9) =~= "Current: "@);
                    }
                    items.push(ContextMenuItem { label, action: ContextMenuAction::EditField, color: String::from_str("#444444"), bounds: None });
                    items.push(menu_item("Increment (+1)", ContextMenuAction::SetIntegerField(current_value + 1), "#0077ff"));
                    items.push(menu_item("Decrement (-1)", ContextMenuAction::SetIntegerField(current_value - 1), "#0077ff"));
                },
                FieldType::String => {
                    let label = concat("Current: ", node.fields[fi].value.as_str());
                    items.push(ContextMenuItem { label, action: ContextMenuAction::EditField, color: String::from_str("#444444"), bounds: None });
                },
            }
            Ok(items)
        },
    }
}

/// Whether a menu on `target` can be listed: the integer a field menu would
/// step from leaves room for a step in each direction.
pub fn menu_steps_fit(target: &ContextMenuTarget, graph: &Graph) -> (r: bool)
    requires
        graph.wf(),
    ensures
        r == menu_steps_in_range(graph@, *target),
{
    match target {
        ContextMenuTarget::Field { node_id, field_template_id } => {
            let node = match graph.instance(node_id.as_str()) {
                Some(node) => node,
                None => {
                    return true;
                },
            };
            let template = match graph.template(node.template_id.as_str()) {
                Some(template) => template,
                None => {
                    return true;
                },
            };
            let ti = match template.field_template_index(field_template_id.as_str()) {
                Some(ti) => ti,
                None => {
                    return true;
                },
            };
            let fi = match node.field_index(field_template_id.as_str()) {
                Some(fi) => fi,
                None => {
                    return true;
                },
            };
            proof {
                assert(template.field_templates@[ti as int]@ == template@.field_templates[ti as int]);
                assert(node.fields@[fi as int]@ == node@.fields[fi as int]);
            }
            match template.field_templates[ti].field_type {
                FieldType::Integer => {
                    let v = match parse_i32(node.fields[fi].value.as_str()) {
                        Some(v) => v,
                        None => 0,
                    };
                    i32::MIN < v && v < i32::MAX
                },
                _ => true,
            }
        },
        _ => true,
    }
}

} // verus!
