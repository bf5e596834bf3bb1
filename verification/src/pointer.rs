//! What pressing, moving and releasing the pointer on the canvas does. The
//! caller finds what lies under the pointer; these functions decide how the
//! state changes and what is to be done.
use vstd::prelude::*;
use vstd::string::*;
use crate::commands::GraphCommand;
use crate::errors::{GraphError, GraphResult};
use crate::graph::{Graph, GraphView};
use crate::menu::{ContextMenuAction, ContextMenuTarget, InteractionMode};
use crate::model::{slot_index, Connection, ConnectionView};

verus! {

/// The state of the pointer.
pub struct PointerState {
    pub is_mouse_down: bool,
    pub click_initiated_on_node: Option<String>,
    pub click_initiated_on_slot: Option<(String, String)>,
    pub currently_selected_node_instance: Option<String>,
    pub is_dragging_node: bool,
    /// The node and slot a connection is being dragged from.
    pub connection_drag: Option<(String, String)>,
    /// What the open context menu was opened on.
    pub context_menu: Option<ContextMenuTarget>,
    pub mode: InteractionMode,
    /// The template that a press in node-adding mode creates a node of.
    pub actively_creating_node_template_id: String,
    pub is_panning: bool,
}

/// What lies under the pointer when it is pressed, looked for in this
/// order: a slot, a node, an entry of the open menu, the rest of the open
/// menu, a connection; or nothing.
pub enum PressTarget {
    Slot(String, String),
    Node(String),
    MenuEntry(ContextMenuAction),
    Menu,
    Connection,
    Nothing,
}

/// What a press leads to.
pub enum PressOutcome {
    /// The canvas cannot be changed: nothing happened.
    Ignored,
    /// The state was updated and nothing more is to be done.
    Done,
    /// The menu entry with this action was chosen on the menu opened on this
    /// target; once the action succeeded, the menu is to be closed.
    MenuAction(ContextMenuAction, ContextMenuTarget),
}

/// What a move of the pointer leads to, in this order: the open menu was
/// closed, the simulation is to start with this node held still, a
/// connection started from this node and slot, this node is to follow the
/// pointer, or the view is to be panned.
pub struct MoveOutcome {
    pub menu_closed: bool,
    pub start_simulation: Option<String>,
    pub connection_started: Option<(String, String)>,
    pub drag_node: Option<String>,
    pub pan: bool,
}

/// What lies under the pointer when it is released after no drag, looked
/// for node by node: a slot of the node, a field of the node with its
/// value, or the node itself.
pub enum ReleaseTarget {
    Slot(String, String),
    Field(String, String, String),
    Node(String),
}

/// How a release starts.
pub enum ReleaseStart {
    /// The canvas cannot be changed: nothing happened.
    Ignored,
    /// A connection dragged from this node and slot was dropped; the drag
    /// is over. Connections to the nodes under the pointer are to be made
    /// before the release goes on.
    Drop(String, String),
    /// The release goes on.
    Continue,
}

/// What the rest of a release leads to, in this order: this node was
/// moved, the view transform is to be saved, a menu opened on this target
/// (with the value of the field it is for), the simulation is to stop, the
/// view transform is to be saved, the open menu was closed.
pub struct ReleasePlan {
    pub node_moved: Option<String>,
    pub save_transform_after_move: bool,
    pub opened: Option<(ContextMenuTarget, Option<String>)>,
    pub stop_simulation: bool,
    pub save_transform: bool,
    pub menu_closed: bool,
}

/// The menu target for what lies under a released pointer, with the value
/// of the field it is for.
pub open spec fn release_menu(t: ReleaseTarget) -> (ContextMenuTarget, Option<String>) {
    match t {
        ReleaseTarget::Slot(node_id, slot_template_id) => (ContextMenuTarget::Slot { node_id, slot_template_id }, None),
        ReleaseTarget::Field(node_id, field_template_id, value) => (
            ContextMenuTarget::Field { node_id, field_template_id },
            Some(value),
        ),
        ReleaseTarget::Node(node_id) => (ContextMenuTarget::Node(node_id), None),
    }
}

/// A slot being clicked names a slot of its node, where the node exists.
pub open spec fn clicked_slot_known(p: PointerState, g: GraphView) -> bool {
    match p.click_initiated_on_slot {
        Some((n, s)) => g.instances.dom().contains(n@) ==> slot_index(g.instances[n@], s@) is Some,
        None => true,
    }
}

/// A copy of a pair of texts.
fn clone_pair(p: &(String, String)) -> (r: (String, String))
    ensures
        r == *p,
{
    (p.0.clone(), p.1.clone())
}

/// A copy of a possibly missing text.
fn clone_option(o: &Option<String>) -> (r: Option<String>)
    ensures
        r == *o,
{
    match o {
        Some(s) => Some(s.clone()),
        None => None,
    }
}

impl PointerState {
    /// Released, nothing clicked, selected, dragged or panned, no menu,
    /// default mode, and no template chosen for new nodes.
    pub fn new() -> (r: Self)
        ensures
            !r.is_mouse_down,
            r.click_initiated_on_node is None,
            r.click_initiated_on_slot is None,
            r.currently_selected_node_instance is None,
            !r.is_dragging_node,
            r.connection_drag is None,
            r.context_menu is None,
            r.mode == InteractionMode::Default,
            r.actively_creating_node_template_id@ == "Unset"@,
            !r.is_panning,
    {
        PointerState {
            is_mouse_down: false,
            click_initiated_on_node: None,
            click_initiated_on_slot: None,
            currently_selected_node_instance: None,
            is_dragging_node: false,
            connection_drag: None,
            context_menu: None,
            mode: InteractionMode::Default,
            actively_creating_node_template_id: String::from_str("Unset"),
            is_panning: false,
        }
    }

    /// Ends any drag: no connection or node is dragged and nothing is
    /// clicked.
    pub fn reset_drag(&mut self)
        ensures
            *final(self) == (PointerState {
                connection_drag: None,
                is_dragging_node: false,
                click_initiated_on_node: None,
                click_initiated_on_slot: None,
                ..*old(self)
            }),
    {
        self.connection_drag = None;
        self.is_dragging_node = false;
        self.click_initiated_on_node = None;
        self.click_initiated_on_slot = None;
    }

    /// Closes the open menu; returns whether one was open.
    pub fn close_menu(&mut self) -> (r: bool)
        ensures
            r == old(self).context_menu is Some,
            *final(self) == (PointerState { context_menu: None, ..*old(self) }),
    {
        let was_open = self.context_menu.is_some();
        self.context_menu = None;
        was_open
    }

    /// A press in the default mode on `target`. On a slot it is clicked; on
    /// a node it is clicked and selected; on a menu entry its action is
    /// chosen; elsewhere in the menu or on a connection nothing more
    /// happens; on nothing the view pans, if it may, and nothing is clicked
    /// or selected.
    pub fn press(&mut self, is_mutable: bool, is_movable: bool, target: PressTarget) -> (r: PressOutcome)
        requires
            (target is MenuEntry || target is Menu) ==> old(self).context_menu is Some,
        ensures
            !is_mutable ==> r is Ignored && *final(self) == *old(self),
            is_mutable ==> {
                let down = PointerState { is_mouse_down: true, ..*old(self) };
                match target {
                    PressTarget::Slot(n, s) => r is Done && *final(self) == PointerState {
                        click_initiated_on_slot: Some((n, s)),
                        ..down
                    },
                    PressTarget::Node(n) => r is Done && *final(self) == PointerState {
                        click_initiated_on_node: Some(n),
                        currently_selected_node_instance: Some(n),
                        ..down
                    },
                    PressTarget::MenuEntry(a) => r == PressOutcome::MenuAction(a, old(self).context_menu->0)
                        && *final(self) == down,
                    PressTarget::Menu => r is Done && *final(self) == down,
                    PressTarget::Connection => r is Done && *final(self) == down,
                    PressTarget::Nothing => r is Done && *final(self) == PointerState {
                        is_panning: if is_movable {
                            true
                        } else {
                            old(self).is_panning
                        },
                        click_initiated_on_node: None,
                        click_initiated_on_slot: None,
                        currently_selected_node_instance: None,
                        ..down
                    },
                }
            },
    {
        if !is_mutable {
            return PressOutcome::Ignored;
        }
        self.is_mouse_down = true;
        match target {
            PressTarget::Slot(n, s) => {
                self.click_initiated_on_slot = Some((n, s));
                PressOutcome::Done
            },
            PressTarget::Node(n) => {
                self.click_initiated_on_node = Some(n.clone());
                self.currently_selected_node_instance = Some(n);
                PressOutcome::Done
            },
            PressTarget::MenuEntry(a) => {
                let t = match &self.context_menu {
                    Some(t) => t.clone(),
                    None => ContextMenuTarget::Node(String::new()),
                };
                PressOutcome::MenuAction(a, t)
            },
            PressTarget::Menu => PressOutcome::Done,
            PressTarget::Connection => PressOutcome::Done,
            PressTarget::Nothing => {
                if is_movable {
                    self.is_panning = true;
                }
                self.click_initiated_on_node = None;
                self.click_initiated_on_slot = None;
                self.currently_selected_node_instance = None;
                PressOutcome::Done
            },
        }
    }
}

/// What a move does to the pointer state `p` over graph `g`, and what is to
/// be done. A pressed node that no drag has started yet starts being
/// dragged, closing the menu and starting the simulation; a pressed slot
/// that no connection drag has started yet closes the menu and, when its
/// node exists, starts a connection drag. Then a dragged node follows the
/// pointer, or else a panning view pans.
pub open spec fn pointer_move(p: PointerState, g: GraphView) -> (PointerState, MoveOutcome) {
    let start = p.is_mouse_down && p.click_initiated_on_node is Some && p.connection_drag is None && !p.is_dragging_node;
    let p1 = if start {
        PointerState { context_menu: None, is_dragging_node: true, ..p }
    } else {
        p
    };
    let connect = p1.is_mouse_down && p1.click_initiated_on_slot is Some && p1.connection_drag is None;
    let origin = p1.click_initiated_on_slot->0;
    let exists = g.instances.dom().contains(origin.0@);
    let p2 = if connect {
        PointerState {
            context_menu: None,
            connection_drag: if exists {
                Some(origin)
            } else {
                None
            },
            ..p1
        }
    } else {
        p1
    };
    (
        p2,
        MoveOutcome {
            menu_closed: (start || connect) && p.context_menu is Some,
            start_simulation: if start {
                p.click_initiated_on_node
            } else {
                None
            },
            connection_started: if connect && exists {
                Some(origin)
            } else {
                None
            },
            drag_node: if p2.is_dragging_node {
                p2.click_initiated_on_node
            } else {
                None
            },
            pan: !p2.is_dragging_node && p2.is_panning,
        },
    )
}

/// What the rest of a release does to the pointer state `p`, given whether
/// a connection was just dropped, what lies under the pointer node by node
/// and which connection lies under it. Without a drop, a dragged node stops
/// and is reported moved, or, with no node dragged, a menu opens on what
/// lies under the pointer. Then a menu opens on a connection under the
/// pointer; otherwise the pan ends, the menu closes, and the simulation
/// stops when a node was being dragged as the release began.
pub open spec fn pointer_release(p: PointerState, after_drop: bool, hit: Option<ReleaseTarget>, connection: Option<Connection>) -> (
    PointerState,
    ReleasePlan,
) {
    let moved = !after_drop && p.is_dragging_node && p.click_initiated_on_node is Some;
    let pa = if moved {
        PointerState { is_dragging_node: false, click_initiated_on_node: None, ..p }
    } else {
        p
    };
    let no_plan = ReleasePlan {
        node_moved: if moved {
            p.click_initiated_on_node
        } else {
            None
        },
        save_transform_after_move: moved,
        opened: None,
        stop_simulation: false,
        save_transform: false,
        menu_closed: false,
    };
    if !after_drop && !moved && !p.is_dragging_node && hit is Some {
        let m = release_menu(hit->0);
        (PointerState { context_menu: Some(m.0), ..pa }, ReleasePlan { opened: Some(m), ..no_plan })
    } else if connection is Some {
        let t = ContextMenuTarget::Connection(connection->0);
        (PointerState { context_menu: Some(t), ..pa }, ReleasePlan { opened: Some((t, None)), ..no_plan })
    } else {
        (
            PointerState { is_dragging_node: false, is_panning: false, context_menu: None, ..pa },
            ReleasePlan {
                stop_simulation: p.is_dragging_node,
                save_transform: pa.is_panning,
                menu_closed: pa.context_menu is Some,
                ..no_plan
            },
        )
    }
}

/// The connection a connection drag dropped on a node makes: from the
/// dragged slot to the node's incoming slot, deletable.
pub fn dropped_connection(host_node_id: &String, host_slot_template_id: &String, target_node_id: &String) -> (r: Connection)
    ensures
        r@ == (ConnectionView {
            can_delete: true,
            host_node_id: host_node_id@,
            host_slot_template_id: host_slot_template_id@,
            target_node_id: target_node_id@,
            target_slot_template_id: "incoming"@,
        }),
{
    Connection {
        can_delete: true,
        host_node_id: host_node_id.clone(),
        host_slot_template_id: host_slot_template_id.clone(),
        target_node_id: target_node_id.clone(),
        target_slot_template_id: String::from_str("incoming"),
    }
}

impl PointerState {
    /// A move of the pointer, as `pointer_move` describes it.
    pub fn moved(&mut self, graph: &Graph) -> (r: MoveOutcome)
        requires
            graph.wf(),
            clicked_slot_known(*old(self), graph@),
        ensures
            (*final(self), r) == pointer_move(*old(self), graph@),
    {
        let mut out = MoveOutcome { menu_closed: false, start_simulation: None, connection_started: None, drag_node: None, pan: false };
        if self.is_mouse_down && self.click_initiated_on_node.is_some() && self.connection_drag.is_none() && !self.is_dragging_node {
            if self.close_menu() {
                out.menu_closed = true;
            }
            self.is_dragging_node = true;
            out.start_simulation = clone_option(&self.click_initiated_on_node);
        }
        if self.is_mouse_down && self.connection_drag.is_none() {
            if let Some(origin) = &self.click_initiated_on_slot {
                let origin = clone_pair(origin);
                if self.close_menu() {
                    out.menu_closed = true;
                }
                if graph.get_node_capabilities(origin.0.as_str()).is_some() {
                    self.connection_drag = Some(clone_pair(&origin));
                    out.connection_started = Some(origin);
                }
            }
        }
        if self.is_dragging_node {
            out.drag_node = clone_option(&self.click_initiated_on_node);
        } else if self.is_panning {
            out.pan = true;
        }
        out
    }

    /// The start of a release: a dropped connection drag ends, and its
    /// origin is returned.
    pub fn release_begin(&mut self, is_mutable: bool) -> (r: ReleaseStart)
        ensures
            !is_mutable ==> r is Ignored && *final(self) == *old(self),
            is_mutable ==> {
                let up = PointerState { is_mouse_down: false, ..*old(self) };
                match old(self).connection_drag {
                    Some((n, s)) => r == ReleaseStart::Drop(n, s) && *final(self) == PointerState {
                        connection_drag: None,
                        is_dragging_node: false,
                        click_initiated_on_node: None,
                        click_initiated_on_slot: None,
                        ..up
                    },
                    None => r is Continue && *final(self) == up,
                }
            },
    {
        if !is_mutable {
            return ReleaseStart::Ignored;
        }
        self.is_mouse_down = false;
        match &self.connection_drag {
            Some(origin) => {
                let (n, s) = clone_pair(origin);
                self.reset_drag();
                ReleaseStart::Drop(n, s)
            },
            None => ReleaseStart::Continue,
        }
    }

    /// The rest of a release, as `pointer_release` describes it.
    pub fn release_end(&mut self, after_drop: bool, hit: Option<ReleaseTarget>, connection: Option<Connection>) -> (r: ReleasePlan)
        ensures
            (*final(self), r) == pointer_release(*old(self), after_drop, hit, connection),
    {
        let was_dragging = self.is_dragging_node;
        let moved = !after_drop && self.is_dragging_node && self.click_initiated_on_node.is_some();
        let mut plan = ReleasePlan {
            node_moved: None,
            save_transform_after_move: moved,
            opened: None,
            stop_simulation: false,
            save_transform: false,
            menu_closed: false,
        };
        if moved {
            plan.node_moved = clone_option(&self.click_initiated_on_node);
            self.is_dragging_node = false;
            self.click_initiated_on_node = None;
        } else if !after_drop && !self.is_dragging_node {
            if let Some(h) = hit {
                let (target, value) = match h {
                    ReleaseTarget::Slot(node_id, slot_template_id) => (ContextMenuTarget::Slot { node_id, slot_template_id }, None),
                    ReleaseTarget::Field(node_id, field_template_id, value) => (
                        ContextMenuTarget::Field { node_id, field_template_id },
                        Some(value),
                    ),
                    ReleaseTarget::Node(node_id) => (ContextMenuTarget::Node(node_id), None),
                };
                self.context_menu = Some(target.clone());
                plan.opened = Some((target, value));
                return plan;
            }
        }
        if let Some(c) = connection {
            let t = ContextMenuTarget::Connection(c);
            self.context_menu = Some(t.clone());
            plan.opened = Some((t, None));
            return plan;
        }
        plan.stop_simulation = was_dragging;
        plan.save_transform = self.is_panning;
        self.is_dragging_node = false;
        self.is_panning = false;
        plan.menu_closed = self.close_menu();
        plan
    }

    /// The command that a press in node-adding mode at (`x`, `y`) runs: a
    /// node of the chosen template, or an error when no template has that
    /// id; nothing when the canvas cannot be changed.
    pub fn add_node_command(&self, graph: &Graph, is_mutable: bool, x: u64, y: u64) -> (r: Option<GraphResult<GraphCommand>>)
        requires
            graph.wf(),
        ensures
            !is_mutable ==> r is None,
            is_mutable && graph@.templates.dom().contains(self.actively_creating_node_template_id@) ==> (r matches Some(
                Ok(GraphCommand::CreateNode { template_id, x: rx, y: ry }),
            ) && template_id@ == self.actively_creating_node_template_id@ && rx == x && ry == y),
            is_mutable && !graph@.templates.dom().contains(self.actively_creating_node_template_id@) ==> (r matches Some(
                Err(GraphError::TemplateNotFound(id)),
            ) && id@ == self.actively_creating_node_template_id@),
    {
        if !is_mutable {
            return None;
        }
        let id = &self.actively_creating_node_template_id;
        match graph.template(id.as_str()) {
            Some(_) => Some(Ok(GraphCommand::CreateNode { template_id: id.clone(), x, y })),
            None => Some(Err(GraphError::TemplateNotFound(id.clone()))),
        }
    }
}

} // verus!
