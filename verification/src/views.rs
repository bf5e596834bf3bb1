//! The views a canvas switches between: each keeps a layout type, the node
//! positions it last showed, its pan and zoom, and whether the force
//! simulation runs in it. Coordinates are carried as IEEE-754 bit patterns
//! and only stored and copied here.
use vstd::prelude::*;
use vstd::string::*;
use crate::graph::{instance_key, moved_to, node_instance_views, Graph, GraphView};
use crate::hierarchy::targets_known;
use crate::model::{connection_views, string_views, Connection, ConnectionView};
use crate::queries::hosted_connections;
use crate::seqs::{distinct_keys, keyed, lemma_keyed_dom, lemma_keyed_index};
use crate::text::str_eq;
use crate::layout::LayoutType;

verus! {

/// A saved node position.
#[derive(Clone, Copy, Debug)]
pub struct NodePosition {
    pub x: u64,
    pub y: u64,
}

/// Saved positions, one entry per node id.
#[derive(Debug)]
pub struct LayoutSnapshot {
    pub positions: Vec<(String, NodePosition)>,
}

/// A saved position as node id and coordinates.
pub open spec fn entry_view(e: (String, NodePosition)) -> (Seq<char>, u64, u64) {
    (e.0@, e.1.x, e.1.y)
}

impl View for LayoutSnapshot {
    type V = Seq<(Seq<char>, u64, u64)>;

    open spec fn view(&self) -> Seq<(Seq<char>, u64, u64)> {
        self.positions@.map_values(|e: (String, NodePosition)| entry_view(e))
    }
}

impl Clone for LayoutSnapshot {
    fn clone(&self) -> (r: Self)
        ensures
            r@ == self@,
    {
        let mut positions: Vec<(String, NodePosition)> = Vec::new();
        let mut i: usize = 0;
        while i < self.positions.len()
            invariant
                i <= self.positions@.len(),
                positions@.len() == i,
                forall|j: int| 0 <= j < i ==> entry_view(#[trigger] positions@[j]) == entry_view(self.positions@[j]),
            decreases self.positions@.len() - i,
        {
            let e = &self.positions[i];
            positions.push((e.0.clone(), e.1));
            i = i + 1;
        }
        let r = LayoutSnapshot { positions };
        assert(r@ =~= self@);
        r
    }
}

/// The bit pattern of the zoom factor 1.
pub const ZOOM_ONE_BITS: u64 = 0x3ff0_0000_0000_0000u64;

/// The number of steps after which the simulation stops by itself.
pub const MAX_SIMULATION_STEPS: usize = 10000;

/// How many views a canvas offers.
pub const VIEW_COUNT: usize = 3;

/// One view: its layout, the positions it last showed, its pan and zoom, and
/// whether the force simulation runs in it.
#[derive(Debug)]
pub struct ViewState {
    pub layout_type: LayoutType,
    pub snapshot: LayoutSnapshot,
    pub pan_x: u64,
    pub pan_y: u64,
    pub zoom: u64,
    pub physics_enabled: bool,
}

pub struct ViewStateView {
    pub layout_type: LayoutType,
    pub snapshot: Seq<(Seq<char>, u64, u64)>,
    pub pan_x: u64,
    pub pan_y: u64,
    pub zoom: u64,
    pub physics_enabled: bool,
}

impl View for ViewState {
    type V = ViewStateView;

    open spec fn view(&self) -> ViewStateView {
        ViewStateView {
            layout_type: self.layout_type,
            snapshot: self.snapshot@,
            pan_x: self.pan_x,
            pan_y: self.pan_y,
            zoom: self.zoom,
            physics_enabled: self.physics_enabled,
        }
    }
}

impl Clone for ViewState {
    fn clone(&self) -> (r: Self)
        ensures
            r@ == self@,
    {
        ViewState {
            layout_type: self.layout_type,
            snapshot: self.snapshot.clone(),
            pan_x: self.pan_x,
            pan_y: self.pan_y,
            zoom: self.zoom,
            physics_enabled: self.physics_enabled,
        }
    }
}

impl ViewState {
    /// A view of `layout_type` showing `snapshot`, not panned, at zoom 1,
    /// with the simulation on.
    pub fn new(layout_type: LayoutType, snapshot: LayoutSnapshot) -> (r: Self)
        ensures
            r@ == (ViewStateView {
                layout_type,
                snapshot: snapshot@,
                pan_x: 0,
                pan_y: 0,
                zoom: ZOOM_ONE_BITS,
                physics_enabled: true,
            }),
    {
        ViewState { layout_type, snapshot, pan_x: 0, pan_y: 0, zoom: ZOOM_ONE_BITS, physics_enabled: true }
    }
}

// ----- snapshots and graphs ---------------------------------------------------

/// `s` holds the position of every node of `g`, once each, and nothing else.
pub open spec fn positions_of(g: GraphView, s: Seq<(Seq<char>, u64, u64)>) -> bool {
    &&& forall|i: int, j: int| 0 <= i < j < s.len() ==> (#[trigger] s[i]).0 != (#[trigger] s[j]).0
    &&& forall|i: int|
        0 <= i < s.len() ==> {
            let e = #[trigger] s[i];
            &&& g.instances.dom().contains(e.0)
            &&& g.instances[e.0].x == e.1
            &&& g.instances[e.0].y == e.2
        }
    &&& forall|id: Seq<char>| #[trigger] g.instances.dom().contains(id) ==> exists|i: int| 0 <= i < s.len() && (#[trigger] s[i]).0 == id
}

/// `g` with the nodes of `s` moved to their saved positions, in order; ids
/// that `g` lacks are passed over.
pub open spec fn applied(g: GraphView, s: Seq<(Seq<char>, u64, u64)>) -> GraphView
    decreases s.len(),
{
    if s.len() == 0 {
        g
    } else {
        let h = applied(g, s.drop_last());
        let e = s.last();
        if h.instances.dom().contains(e.0) {
            GraphView { templates: h.templates, instances: h.instances.insert(e.0, moved_to(h.instances[e.0], e.1, e.2)) }
        } else {
            h
        }
    }
}

/// `b` is `a` with nodes moved, and nothing else changed.
pub open spec fn same_but_positions(a: GraphView, b: GraphView) -> bool {
    &&& a.templates == b.templates
    &&& a.instances.dom() == b.instances.dom()
    &&& forall|id: Seq<char>| #[trigger]
        a.instances.dom().contains(id) ==> b.instances[id] == moved_to(a.instances[id], b.instances[id].x, b.instances[id].y)
}

/// Applying a snapshot only moves nodes: the result agrees with the graph
/// outside the snapshot's ids, and has the last saved position of each id
/// the graph has.
pub proof fn lemma_applied(g: GraphView, s: Seq<(Seq<char>, u64, u64)>)
    ensures
        same_but_positions(g, applied(g, s)),
        forall|id: Seq<char>|
            g.instances.dom().contains(id) && (forall|i: int| 0 <= i < s.len() ==> (#[trigger] s[i]).0 != id) ==> applied(g, s).instances[id] == g.instances[id],
    decreases s.len(),
{
    if s.len() > 0 {
        let t = s.drop_last();
        lemma_applied(g, t);
        let h = applied(g, t);
        let e = s.last();
        assert forall|id: Seq<char>|
            g.instances.dom().contains(id) && (forall|i: int| 0 <= i < s.len() ==> (#[trigger] s[i]).0 != id) implies applied(g, s).instances[id] == g.instances[id] by {
            assert forall|i: int| 0 <= i < t.len() implies (#[trigger] t[i]).0 != id by {
                assert(t[i] == s[i]);
            }
            assert(s[s.len() - 1].0 != id);
        }
        if h.instances.dom().contains(e.0) {
            let r = applied(g, s);
            assert(r.instances.dom() =~= h.instances.dom());
            assert forall|id: Seq<char>| #[trigger] g.instances.dom().contains(id) implies r.instances[id] == moved_to(
                g.instances[id],
                r.instances[id].x,
                r.instances[id].y,
            ) by {
                assert(h.instances[id] == moved_to(g.instances[id], h.instances[id].x, h.instances[id].y));
            }
        }
    }
}

/// Applying the snapshot of a graph's positions to any graph that differs
/// from it only in positions gives back that graph.
pub proof fn lemma_applied_restores(g0: GraphView, g1: GraphView, s: Seq<(Seq<char>, u64, u64)>)
    requires
        positions_of(g0, s),
        same_but_positions(g0, g1),
    ensures
        applied(g1, s) == g0,
{
    lemma_applied_prefix(g0, g1, s, s.len() as int);
    let r = applied(g1, s);
    assert(s.take(s.len() as int) =~= s);
    lemma_applied(g1, s);
    assert(r.instances.dom() =~= g0.instances.dom());
    assert forall|id: Seq<char>| #[trigger] g0.instances.dom().contains(id) implies r.instances[id] == g0.instances[id] by {
        let i = choose|i: int| 0 <= i < s.len() && (#[trigger] s[i]).0 == id;
        assert(s.take(s.len() as int)[i] == s[i]);
        assert(r.instances[id] == moved_to(g1.instances[id], s[i].1, s[i].2));
        assert(g1.instances[id] == moved_to(g0.instances[id], g1.instances[id].x, g1.instances[id].y));
    }
    assert(r.instances =~= g0.instances);
}

/// After applying the first `k` entries of `s`, each id among them sits at
/// its saved position.
proof fn lemma_applied_prefix(g0: GraphView, g1: GraphView, s: Seq<(Seq<char>, u64, u64)>, k: int)
    requires
        positions_of(g0, s),
        same_but_positions(g0, g1),
        0 <= k <= s.len(),
    ensures
        forall|i: int|
            0 <= i < k ==> applied(g1, s.take(k)).instances[(#[trigger] s[i]).0] == moved_to(g1.instances[s[i].0], s[i].1, s[i].2),
    decreases k,
{
    if k > 0 {
        lemma_applied_prefix(g0, g1, s, k - 1);
        let t = s.take(k);
        assert(t.drop_last() =~= s.take(k - 1));
        assert(t.last() == s[k - 1]);
        let h = applied(g1, s.take(k - 1));
        lemma_applied(g1, s.take(k - 1));
        assert(h.instances.dom().contains(s[k - 1].0));
        assert forall|i: int| 0 <= i < k implies applied(g1, t).instances[(#[trigger] s[i]).0] == moved_to(
            g1.instances[s[i].0],
            s[i].1,
            s[i].2,
        ) by {
            if i < k - 1 {
                assert(s[i].0 != s[k - 1].0);
            } else {
                assert(h.instances[s[i].0] == moved_to(g1.instances[s[i].0], h.instances[s[i].0].x, h.instances[s[i].0].y));
            }
        }
    }
}

// ----- the engine -----------------------------------------------------------------

/// The views of a canvas and the state of the force simulation that runs
/// while a node is dragged.
#[derive(Debug)]
pub struct LayoutEngine {
    current_view_index: usize,
    views: Vec<ViewState>,
    canvas_id: String,
    force_simulation_active: bool,
    fixed_node_id: Option<String>,
    simulation_iteration: usize,
    temperature: u64,
    connections: Vec<(String, Vec<String>)>,
}

/// Lists of node ids by node id, as text.
pub open spec fn id_lists_view(c: Seq<(String, Vec<String>)>) -> Seq<(Seq<char>, Seq<Seq<char>>)> {
    c.map_values(|e: (String, Vec<String>)| (e.0@, string_views(e.1@)))
}

/// The engine: which view is shown, the views, the canvas it lays out, and
/// the simulation: whether it runs, the node held still (the one dragged),
/// how many steps it took, the largest step a node may take (`temperature`)
/// and, for each node id, the nodes joined to it by a connection.
pub struct EngineView {
    pub current: int,
    pub views: Seq<ViewStateView>,
    pub canvas_id: Seq<char>,
    pub simulation_active: bool,
    pub fixed_node: Option<Seq<char>>,
    pub iteration: usize,
    pub temperature: u64,
    pub connections: Seq<(Seq<char>, Seq<Seq<char>>)>,
}

/// A possibly missing text.
pub open spec fn text_option(o: Option<String>) -> Option<Seq<char>> {
    match o {
        Some(s) => Some(s@),
        None => None,
    }
}

impl View for LayoutEngine {
    type V = EngineView;

    closed spec fn view(&self) -> EngineView {
        EngineView {
            current: self.current_view_index as int,
            views: self.views@.map_values(|v: ViewState| v@),
            canvas_id: self.canvas_id@,
            simulation_active: self.force_simulation_active,
            fixed_node: text_option(self.fixed_node_id),
            iteration: self.simulation_iteration,
            temperature: self.temperature,
            connections: id_lists_view(self.connections@),
        }
    }
}

/// A fresh view of `t`: nothing saved, not panned, zoom 1, simulation on.
pub open spec fn fresh_view(t: LayoutType) -> ViewStateView {
    ViewStateView {
        layout_type: t,
        snapshot: Seq::empty(),
        pan_x: 0,
        pan_y: 0,
        zoom: ZOOM_ONE_BITS,
        physics_enabled: true,
    }
}

/// `v` with `s` saved as its positions.
pub open spec fn with_snapshot(v: ViewStateView, s: Seq<(Seq<char>, u64, u64)>) -> ViewStateView {
    ViewStateView { snapshot: s, ..v }
}

/// The canvas and simulation of `a` and `b` are the same.
pub open spec fn same_simulation(a: EngineView, b: EngineView) -> bool {
    &&& a.canvas_id == b.canvas_id
    &&& a.simulation_active == b.simulation_active
    &&& a.fixed_node == b.fixed_node
    &&& a.iteration == b.iteration
    &&& a.temperature == b.temperature
    &&& a.connections == b.connections
}

/// `new` is `old` with the shown view's current positions saved from `g`:
/// the same view is shown and the other views are unchanged.
pub open spec fn saved_from(old: EngineView, new: EngineView, g: GraphView) -> bool {
    &&& new.current == old.current
    &&& new.views.len() == old.views.len()
    &&& positions_of(g, new.views[old.current].snapshot)
    &&& new.views[old.current] == with_snapshot(old.views[old.current], new.views[old.current].snapshot)
    &&& forall|i: int| 0 <= i < old.views.len() && i != old.current ==> #[trigger] new.views[i] == old.views[i]
}

impl LayoutEngine {
    /// There are three views and one of them is shown.
    pub open spec fn wf(&self) -> bool {
        &&& self@.views.len() == VIEW_COUNT
        &&& 0 <= self@.current < VIEW_COUNT
    }

    /// Three fresh views, for the force-directed, hierarchical and free
    /// layouts, the first shown; no simulation running.
    pub fn new(canvas_ref_id: String) -> (r: Self)
        ensures
            r.wf(),
            r@.current == 0,
            r@.views == seq![
                fresh_view(LayoutType::ForceDirected),
                fresh_view(LayoutType::Hierarchical),
                fresh_view(LayoutType::Free),
            ],
            r@.canvas_id == canvas_ref_id@,
            !r@.simulation_active,
            r@.fixed_node is None,
            r@.iteration == 0,
            r@.temperature == 0,
            r@.connections.len() == 0,
    {
        let mut views: Vec<ViewState> = Vec::new();
        views.push(ViewState::new(LayoutType::ForceDirected, empty_snapshot()));
        views.push(ViewState::new(LayoutType::Hierarchical, empty_snapshot()));
        views.push(ViewState::new(LayoutType::Free, empty_snapshot()));
        let r = LayoutEngine {
            current_view_index: 0,
            views,
            canvas_id: canvas_ref_id,
            force_simulation_active: false,
            fixed_node_id: None,
            simulation_iteration: 0,
            temperature: 0,
            connections: Vec::new(),
        };
        assert(r@.connections =~= Seq::<(Seq<char>, Seq<Seq<char>>)>::empty());
        assert(r@.views =~= seq![
            fresh_view(LayoutType::ForceDirected),
            fresh_view(LayoutType::Hierarchical),
            fresh_view(LayoutType::Free),
        ]);
        r
    }

    /// Whether the simulation runs in the shown view.
    pub fn is_physics_enabled(&self) -> (r: bool)
        requires
            self.wf(),
        ensures
            r == self@.views[self@.current].physics_enabled,
    {
        self.views[self.current_view_index].physics_enabled
    }

    /// The layout of the shown view.
    pub fn current_layout_type(&self) -> (r: LayoutType)
        requires
            self.wf(),
        ensures
            r == self@.views[self@.current].layout_type,
    {
        self.views[self.current_view_index].layout_type
    }

    /// Turns the simulation of the shown view on or off, and returns whether
    /// it is now on.
    pub fn toggle_physics(&mut self) -> (r: bool)
        requires
            old(self).wf(),
        ensures
            final(self).wf(),
            r == !old(self)@.views[old(self)@.current].physics_enabled,
            final(self)@.current == old(self)@.current,
            final(self)@.views == old(self)@.views.update(
                old(self)@.current,
                ViewStateView { physics_enabled: r, ..old(self)@.views[old(self)@.current] },
            ),
            same_simulation(final(self)@, old(self)@),
    {
        let i = self.current_view_index;
        let enabled = !self.views[i].physics_enabled;
        let mut v = self.views[i].clone();
        v.physics_enabled = enabled;
        self.views.set(i, v);
        assert(self@.views =~= old(self)@.views.update(
            old(self)@.current,
            ViewStateView { physics_enabled: enabled, ..old(self)@.views[old(self)@.current] },
        ));
        enabled
    }

    /// Remembers the pan and zoom of the shown view.
    pub fn save_view_transform(&mut self, pan_x: u64, pan_y: u64, zoom: u64)
        requires
            old(self).wf(),
        ensures
            final(self).wf(),
            final(self)@.current == old(self)@.current,
            final(self)@.views == old(self)@.views.update(
                old(self)@.current,
                ViewStateView { pan_x, pan_y, zoom, ..old(self)@.views[old(self)@.current] },
            ),
            same_simulation(final(self)@, old(self)@),
    {
        let i = self.current_view_index;
        let mut v = self.views[i].clone();
        v.pan_x = pan_x;
        v.pan_y = pan_y;
        v.zoom = zoom;
        self.views.set(i, v);
        assert(self@.views =~= old(self)@.views.update(
            old(self)@.current,
            ViewStateView { pan_x, pan_y, zoom, ..old(self)@.views[old(self)@.current] },
        ));
    }

    /// The current position of every node: the free layout.
    pub fn generate_free_layout(&self, graph: &Graph) -> (r: LayoutSnapshot)
        requires
            graph.wf(),
        ensures
            positions_of(graph@, r@),
    {
        current_positions(graph)
    }

    /// Saves the current positions as those of the shown view.
    fn save_current_view_state(&mut self, graph: &Graph)
        requires
            old(self).wf(),
            graph.wf(),
        ensures
            final(self).wf(),
            saved_from(old(self)@, final(self)@, graph@),
            same_simulation(final(self)@, old(self)@),
    {
        let i = self.current_view_index;
        let mut v = self.views[i].clone();
        v.snapshot = current_positions(graph);
        let ghost nv = v@;
        self.views.set(i, v);
        assert(self@.views =~= old(self)@.views.update(i as int, nv));
    }

    /// Moves the nodes of the graph to the positions of `snapshot`.
    fn apply_snapshot(&self, graph: &mut Graph, snapshot: &LayoutSnapshot)
        requires
            old(graph).wf(),
        ensures
            final(graph).wf(),
            final(graph)@ == applied(old(graph)@, snapshot@),
    {
        let mut i: usize = 0;
        while i < snapshot.positions.len()
            invariant
                graph.wf(),
                i <= snapshot@.len(),
                graph@ == applied(old(graph)@, snapshot@.take(i as int)),
            decreases snapshot@.len() - i,
        {
            let e = &snapshot.positions[i];
            let ghost before = graph@;
            graph.set_node_position(e.0.as_str(), e.1.x, e.1.y);
            proof {
                let t = snapshot@.take(i + 1);
                assert(t.drop_last() =~= snapshot@.take(i as int));
                assert(t.last() == snapshot@[i as int]);
                assert(snapshot@[i as int] == entry_view(snapshot.positions@[i as int]));
                if !before.instances.dom().contains(e.0@) {
                    assert(graph@ == before);
                }
            }
            i = i + 1;
        }
        assert(snapshot@.take(snapshot@.len() as int) =~= snapshot@);
    }
}

/// `new` shows view `j` of `old` after saving into the view `old` showed
/// the positions of `g`; the other views are unchanged.
pub open spec fn switched_to(old: EngineView, new: EngineView, g: GraphView, j: int) -> bool {
    &&& new.current == j
    &&& new.views.len() == old.views.len()
    &&& positions_of(g, new.views[old.current].snapshot)
    &&& new.views[old.current] == with_snapshot(old.views[old.current], new.views[old.current].snapshot)
    &&& forall|i: int| 0 <= i < old.views.len() && i != old.current ==> #[trigger] new.views[i] == old.views[i]
}

impl LayoutEngine {
    /// Gives the shown view layout `layout_type`, with the simulation on
    /// exactly for the force-directed layout, after saving the current
    /// positions into the view. The force-directed layout is laid out anew
    /// on every switch to it: the result is `true` then, and the caller
    /// generates that layout and shows it with `show_layout`. Other layouts
    /// show the positions just saved again. (The saved positions cover every
    /// node, so they are empty only for an empty graph, whose layout is empty
    /// whatever its type.)
    pub fn switch_layout(&mut self, layout_type: LayoutType, graph: &mut Graph) -> (r: bool)
        requires
            old(self).wf(),
            old(graph).wf(),
        ensures
            r == (layout_type == LayoutType::ForceDirected),
            final(self).wf(),
            final(graph).wf(),
            final(graph)@ == old(graph)@,
            final(self)@.current == old(self)@.current,
            final(self)@.views.len() == old(self)@.views.len(),
            positions_of(old(graph)@, final(self)@.views[old(self)@.current].snapshot),
            final(self)@.views[old(self)@.current] == (ViewStateView {
                layout_type,
                snapshot: final(self)@.views[old(self)@.current].snapshot,
                physics_enabled: layout_type == LayoutType::ForceDirected,
                ..old(self)@.views[old(self)@.current]
            }),
            forall|i: int| 0 <= i < VIEW_COUNT && i != old(self)@.current ==> #[trigger] final(self)@.views[i] == old(self)@.views[i],
            same_simulation(final(self)@, old(self)@),
    {
        self.save_current_view_state(graph);
        let i = self.current_view_index;
        let snapshot = self.views[i].snapshot.clone();
        let ghost saved = self@;
        let mut v = self.views[i].clone();
        v.layout_type = layout_type;
        v.physics_enabled = layout_type == LayoutType::ForceDirected;
        let ghost nv = v@;
        self.views.set(i, v);
        proof {
            assert(self@.views =~= saved.views.update(i as int, nv));
        }
        if layout_type == LayoutType::ForceDirected {
            return true;
        }
        self.apply_snapshot(graph, &snapshot);
        proof {
            lemma_applied_restores(old(graph)@, old(graph)@, snapshot@);
        }
        false
    }

    /// Moves the nodes of the graph to the positions of a layout generated
    /// for the shown view.
    pub fn show_layout(&self, graph: &mut Graph, snapshot: &LayoutSnapshot)
        requires
            old(graph).wf(),
        ensures
            final(graph).wf(),
            final(graph)@ == applied(old(graph)@, snapshot@),
    {
        self.apply_snapshot(graph, snapshot);
    }

    /// Shows view `view_index`: saves the current positions into the view
    /// shown so far, moves the nodes to the positions the new view saved,
    /// and returns its pan and zoom. Does nothing for an index past the
    /// views.
    pub fn switch_to_view(&mut self, view_index: usize, graph: &mut Graph) -> (r: Option<(u64, u64, u64)>)
        requires
            old(self).wf(),
            old(graph).wf(),
        ensures
            final(self).wf(),
            final(graph).wf(),
            same_simulation(final(self)@, old(self)@),
            view_index >= VIEW_COUNT ==> r is None && final(self)@ == old(self)@ && final(graph)@ == old(graph)@,
            view_index < VIEW_COUNT ==> {
                let v = final(self)@.views[view_index as int];
                &&& switched_to(old(self)@, final(self)@, old(graph)@, view_index as int)
                &&& final(graph)@ == applied(old(graph)@, v.snapshot)
                &&& r == Some((v.pan_x, v.pan_y, v.zoom))
            },
    {
        if view_index >= VIEW_COUNT {
            return None;
        }
        self.save_current_view_state(graph);
        self.current_view_index = view_index;
        let snapshot = self.views[view_index].snapshot.clone();
        self.apply_snapshot(graph, &snapshot);
        let v = &self.views[view_index];
        Some((v.pan_x, v.pan_y, v.zoom))
    }

    /// Shows `snapshot`, the layout of the shown view laid out anew, and
    /// resets the view's pan and zoom.
    pub fn reset_current_layout(&mut self, graph: &mut Graph, snapshot: LayoutSnapshot)
        requires
            old(self).wf(),
            old(graph).wf(),
        ensures
            final(self).wf(),
            final(graph).wf(),
            final(graph)@ == applied(old(graph)@, snapshot@),
            final(self)@.current == old(self)@.current,
            final(self)@.views == old(self)@.views.update(
                old(self)@.current,
                ViewStateView { snapshot: snapshot@, pan_x: 0, pan_y: 0, zoom: ZOOM_ONE_BITS, ..old(self)@.views[old(self)@.current] },
            ),
            same_simulation(final(self)@, old(self)@),
    {
        let i = self.current_view_index;
        self.apply_snapshot(graph, &snapshot);
        let mut v = self.views[i].clone();
        v.snapshot = snapshot;
        v.pan_x = 0;
        v.pan_y = 0;
        v.zoom = ZOOM_ONE_BITS;
        let ghost nv = v@;
        self.views.set(i, v);
        assert(self@.views =~= old(self)@.views.update(i as int, nv));
    }

    /// Starts the simulation while node `node_id` is dragged, if it is on in
    /// the shown view: the node is held still, steps start from zero at
    /// `temperature`, over the connections of the graph.
    pub fn start_force_simulation(&mut self, graph: &Graph, node_id: &str, temperature: u64)
        requires
            old(self).wf(),
            graph.wf(),
            targets_known(graph@),
        ensures
            final(self).wf(),
            !old(self)@.views[old(self)@.current].physics_enabled ==> final(self)@ == old(self)@,
            old(self)@.views[old(self)@.current].physics_enabled ==> {
                &&& final(self)@.current == old(self)@.current
                &&& final(self)@.views == old(self)@.views
                &&& final(self)@.canvas_id == old(self)@.canvas_id
                &&& final(self)@.simulation_active
                &&& final(self)@.fixed_node == Some(node_id@)
                &&& final(self)@.iteration == 0
                &&& final(self)@.temperature == temperature
                &&& joined_lists(graph@, final(self)@.connections)
            },
    {
        if !self.views[self.current_view_index].physics_enabled {
            return;
        }
        self.force_simulation_active = true;
        self.fixed_node_id = Some(node_id.to_string());
        self.simulation_iteration = 0;
        self.temperature = temperature;
        self.connections = build_connection_graph(graph);
    }

    /// Stops the simulation.
    pub fn stop_force_simulation(&mut self)
        requires
            old(self).wf(),
        ensures
            final(self).wf(),
            final(self)@ == (EngineView { simulation_active: false, fixed_node: None, ..old(self)@ }),
    {
        self.force_simulation_active = false;
        self.fixed_node_id = None;
    }

    /// The node held still, when the simulation may step: it is running,
    /// holds a node, and is on in the shown view.
    pub fn simulation_target(&self) -> (r: Option<&String>)
        requires
            self.wf(),
        ensures
            match r {
                Some(id) => {
                    &&& self@.simulation_active
                    &&& self@.views[self@.current].physics_enabled
                    &&& self@.fixed_node == Some(id@)
                },
                None => !self@.simulation_active || self@.fixed_node is None || !self@.views[self@.current].physics_enabled,
            },
    {
        if !self.force_simulation_active || !self.views[self.current_view_index].physics_enabled {
            return None;
        }
        match &self.fixed_node_id {
            Some(id) => Some(id),
            None => None,
        }
    }

    /// The largest step a node may take in the next step.
    pub fn temperature(&self) -> (r: u64)
        ensures
            r == self@.temperature,
    {
        self.temperature
    }

    /// For each node id, the nodes joined to it by a connection.
    pub fn connections(&self) -> (r: &Vec<(String, Vec<String>)>)
        ensures
            id_lists_view(r@) == self@.connections,
    {
        &self.connections
    }

    /// The id of the canvas the engine lays out.
    pub fn canvas_id(&self) -> (r: &String)
        ensures
            r@ == self@.canvas_id,
    {
        &self.canvas_id
    }

    /// Records a step of the simulation, after which the largest step is
    /// `temperature`; the simulation ends after ten thousand steps.
    pub fn finish_simulation_step(&mut self, temperature: u64)
        requires
            old(self).wf(),
        ensures
            final(self).wf(),
            final(self)@ == (EngineView {
                temperature,
                iteration: if old(self)@.iteration < usize::MAX { (old(self)@.iteration + 1) as usize } else { old(self)@.iteration },
                simulation_active: old(self)@.simulation_active && old(self)@.iteration + 1 <= MAX_SIMULATION_STEPS,
                ..old(self)@
            }),
    {
        self.temperature = temperature;
        if self.simulation_iteration < usize::MAX {
            self.simulation_iteration = self.simulation_iteration + 1;
        }
        if self.simulation_iteration > MAX_SIMULATION_STEPS {
            self.force_simulation_active = false;
        }
    }
}

/// A snapshot with no positions.
fn empty_snapshot() -> (r: LayoutSnapshot)
    ensures
        r@ == Seq::<(Seq<char>, u64, u64)>::empty(),
{
    let r = LayoutSnapshot { positions: Vec::new() };
    assert(r@ =~= Seq::<(Seq<char>, u64, u64)>::empty());
    r
}

/// The current position of every node of the graph.
fn current_positions(graph: &Graph) -> (r: LayoutSnapshot)
    requires
        graph.wf(),
    ensures
        positions_of(graph@, r@),
{
    let list = graph.instance_list();
    let ghost s = crate::graph::node_instance_views(list@);
    let mut positions: Vec<(String, NodePosition)> = Vec::new();
    let mut i: usize = 0;
    while i < list.len()
        invariant
            s == crate::graph::node_instance_views(list@),
            crate::seqs::distinct_keys(s, crate::graph::instance_key()),
            crate::seqs::keyed(s, crate::graph::instance_key()) == graph@.instances,
            graph.wf(),
            i <= list@.len(),
            positions@.len() == i,
            forall|j: int| 0 <= j < i ==> entry_view(#[trigger] positions@[j]) == (s[j].instance_id, s[j].x, s[j].y),
        decreases list@.len() - i,
    {
        let n = &list[i];
        positions.push((n.instance_id.clone(), NodePosition { x: n.x, y: n.y }));
        i = i + 1;
    }
    let r = LayoutSnapshot { positions };
    proof {
        lemma_listed_positions(graph@, s, r@);
    }
    r
}

/// The positions listed from a graph's instances, in list order, are the
/// positions of the graph.
proof fn lemma_listed_positions(g: GraphView, s: Seq<crate::model::NodeInstanceView>, snap: Seq<(Seq<char>, u64, u64)>)
    requires
        crate::seqs::distinct_keys(s, crate::graph::instance_key()),
        crate::seqs::keyed(s, crate::graph::instance_key()) == g.instances,
        snap.len() == s.len(),
        forall|j: int| 0 <= j < s.len() ==> #[trigger] snap[j] == (s[j].instance_id, s[j].x, s[j].y),
    ensures
        positions_of(g, snap),
{
    let key = crate::graph::instance_key();
    assert forall|i: int, j: int| 0 <= i < j < snap.len() implies (#[trigger] snap[i]).0 != (#[trigger] snap[j]).0 by {
        assert(key(s[i]) != key(s[j]));
    }
    assert forall|i: int| 0 <= i < snap.len() implies {
        let e = #[trigger] snap[i];
        &&& g.instances.dom().contains(e.0)
        &&& g.instances[e.0].x == e.1
        &&& g.instances[e.0].y == e.2
    } by {
        crate::seqs::lemma_keyed_index(s, key, i);
    }
    assert forall|id: Seq<char>| #[trigger] g.instances.dom().contains(id) implies exists|i: int| 0 <= i < snap.len() && (#[trigger] snap[i]).0 == id by {
        crate::seqs::lemma_keyed_dom(s, key, id);
        let i = choose|i: int| 0 <= i < s.len() && key(s[i]) == id;
        assert(snap[i].0 == id);
    }
}

// ----- the nodes joined to each node ----------------------------------------------

/// The ids of the targets of `cs`, in order.
pub open spec fn conn_targets(cs: Seq<ConnectionView>) -> Seq<Seq<char>>
    decreases cs.len(),
{
    if cs.len() == 0 {
        Seq::empty()
    } else {
        conn_targets(cs.drop_last()).push(cs.last().target_node_id)
    }
}

/// `v` once for each connection of `cs` that leads to `t`.
pub open spec fn hits(cs: Seq<ConnectionView>, t: Seq<char>, v: Seq<char>) -> Seq<Seq<char>>
    decreases cs.len(),
{
    if cs.len() == 0 {
        Seq::empty()
    } else if cs.last().target_node_id == t {
        hits(cs.drop_last(), t, v).push(v)
    } else {
        hits(cs.drop_last(), t, v)
    }
}

/// The nodes among the first `upto` of `ids` whose connections lead to `t`,
/// once per connection, in order.
pub open spec fn sources_of(g: GraphView, ids: Seq<Seq<char>>, t: Seq<char>, upto: int) -> Seq<Seq<char>>
    decreases upto,
{
    if upto <= 0 {
        Seq::empty()
    } else {
        sources_of(g, ids, t, upto - 1) + hits(hosted_connections(g.instances[ids[upto - 1]].slots), t, ids[upto - 1])
    }
}

/// The node ids of an adjacency list.
pub open spec fn list_ids(c: Seq<(Seq<char>, Seq<Seq<char>>)>) -> Seq<Seq<char>> {
    c.map_values(|e: (Seq<char>, Seq<Seq<char>>)| e.0)
}

/// `c` lists each node of `g` once, each with the nodes its connections lead
/// to, in order, followed by the nodes whose connections lead to it, in the
/// order of `c`, once per connection.
pub open spec fn joined_lists(g: GraphView, c: Seq<(Seq<char>, Seq<Seq<char>>)>) -> bool {
    &&& forall|i: int, j: int| 0 <= i < j < c.len() ==> (#[trigger] c[i]).0 != (#[trigger] c[j]).0
    &&& forall|i: int| 0 <= i < c.len() ==> g.instances.dom().contains((#[trigger] c[i]).0)
    &&& forall|id: Seq<char>| #[trigger] g.instances.dom().contains(id) ==> exists|i: int| 0 <= i < c.len() && (#[trigger] c[i]).0 == id
    &&& forall|u: int|
        0 <= u < c.len() ==> (#[trigger] c[u]).1 == conn_targets(hosted_connections(g.instances[c[u].0].slots)) + sources_of(
            g,
            list_ids(c),
            c[u].0,
            c.len() as int,
        )
}

/// For each node, the nodes joined to it by a connection in either
/// direction: those its connections lead to, then those whose connections
/// lead to it.
pub fn build_connection_graph(graph: &Graph) -> (r: Vec<(String, Vec<String>)>)
    requires
        graph.wf(),
        targets_known(graph@),
    ensures
        joined_lists(graph@, id_lists_view(r@)),
{
    let ghost g = graph@;
    let list = graph.instance_list();
    let ghost s = node_instance_views(list@);
    let n = list.len();
    let mut ids: Vec<String> = Vec::new();
    let mut conns: Vec<Vec<Connection>> = Vec::new();
    let mut i: usize = 0;
    while i < n
        invariant
            n == list@.len(),
            s == node_instance_views(list@),
            distinct_keys(s, instance_key()),
            keyed(s, instance_key()) == g.instances,
            graph.wf(),
            g == graph@,
            i <= n,
            ids@.len() == i,
            conns@.len() == i,
            forall|j: int| 0 <= j < i ==> (#[trigger] ids@[j])@ == s[j].instance_id,
            forall|j: int| 0 <= j < i ==> connection_views((#[trigger] conns@[j])@) == hosted_connections(g.instances[s[j].instance_id].slots),
        decreases n - i,
    {
        proof {
            lemma_keyed_index(s, instance_key(), i as int);
        }
        ids.push(list[i].instance_id.clone());
        conns.push(graph.get_node_connections(list[i].instance_id.as_str()));
        i = i + 1;
    }
    let ghost iv = string_views(ids@);
    proof {
        assert forall|a: int, b: int| 0 <= a < b < iv.len() implies iv[a] != iv[b] by {
            assert((instance_key())(s[a]) != (instance_key())(s[b]));
        }
        assert forall|a: int| 0 <= a < iv.len() implies g.instances.dom().contains(#[trigger] iv[a]) by {
            lemma_keyed_index(s, instance_key(), a);
        }
        assert forall|x: Seq<char>| #[trigger] g.instances.dom().contains(x) implies exists|a: int| 0 <= a < iv.len() && iv[a] == x by {
            lemma_keyed_dom(s, instance_key(), x);
            let a = choose|a: int| 0 <= a < s.len() && (instance_key())(s[a]) == x;
            assert(iv[a] == x);
        }
    }
    let mut r: Vec<(String, Vec<String>)> = Vec::new();
    let mut u: usize = 0;
    while u < n
        invariant
            n == ids@.len(),
            n == conns@.len(),
            iv == string_views(ids@),
            forall|j: int| 0 <= j < n ==> connection_views((#[trigger] conns@[j])@) == hosted_connections(g.instances[iv[j]].slots),
            u <= n,
            r@.len() == u,
            forall|a: int| 0 <= a < u ==> (#[trigger] id_lists_view(r@)[a]) == (iv[a], conn_targets(hosted_connections(g.instances[iv[a]].slots)) + sources_of(g, iv, iv[a], n as int)),
        decreases n - u,
    {
        let ghost cu = connection_views(conns@[u as int]@);
        let ghost t = iv[u as int];
        let mut out: Vec<String> = Vec::new();
        let mut j: usize = 0;
        proof {
            assert(cu.take(0) =~= Seq::<ConnectionView>::empty());
            assert(string_views(out@) =~= Seq::<Seq<char>>::empty());
        }
        while j < conns[u].len()
            invariant
                u < n,
                n == conns@.len(),
                cu == connection_views(conns@[u as int]@),
                j <= cu.len(),
                string_views(out@) == conn_targets(cu.take(j as int)),
            decreases cu.len() - j,
        {
            let ghost before = out@;
            out.push(conns[u][j].target_node_id.clone());
            proof {
                assert(cu.take(j + 1).drop_last() =~= cu.take(j as int));
                assert(cu[j as int] == conns@[u as int]@[j as int]@);
                assert(string_views(out@) =~= string_views(before).push(cu[j as int].target_node_id));
            }
            j = j + 1;
        }
        proof {
            assert(cu.take(cu.len() as int) =~= cu);
            assert(conn_targets(cu) + sources_of(g, iv, t, 0) =~= conn_targets(cu));
        }
        let mut v: usize = 0;
        while v < n
            invariant
                u < n,
                n == ids@.len(),
                n == conns@.len(),
                iv == string_views(ids@),
                t == iv[u as int],
                forall|j2: int| 0 <= j2 < n ==> connection_views((#[trigger] conns@[j2])@) == hosted_connections(g.instances[iv[j2]].slots),
                cu == connection_views(conns@[u as int]@),
                v <= n,
                string_views(out@) == conn_targets(cu) + sources_of(g, iv, t, v as int),
            decreases n - v,
        {
            let ghost cv = connection_views(conns@[v as int]@);
            let ghost base = conn_targets(cu) + sources_of(g, iv, t, v as int);
            let mut q: usize = 0;
            proof {
                assert(cv.take(0) =~= Seq::<ConnectionView>::empty());
                assert(base + hits(cv.take(0), t, iv[v as int]) =~= base);
            }
            while q < conns[v].len()
                invariant
                    u < n,
                    v < n,
                    n == ids@.len(),
                    n == conns@.len(),
                    iv == string_views(ids@),
                    t == iv[u as int],
                    cv == connection_views(conns@[v as int]@),
                    q <= cv.len(),
                    string_views(out@) == base + hits(cv.take(q as int), t, iv[v as int]),
                decreases cv.len() - q,
            {
                let ghost before = out@;
                proof {
                    assert(cv.take(q + 1).drop_last() =~= cv.take(q as int));
                    assert(cv.take(q + 1).last() == cv[q as int]);
                    assert(cv[q as int] == conns@[v as int]@[q as int]@);
                }
                if str_eq(conns[v][q].target_node_id.as_str(), ids[u].as_str()) {
                    out.push(ids[v].clone());
                    proof {
                        assert(string_views(out@) =~= string_views(before).push(iv[v as int]));
                    }
                }
                q = q + 1;
            }
            proof {
                assert(cv.take(cv.len() as int) =~= cv);
                assert(sources_of(g, iv, t, v + 1) == sources_of(g, iv, t, v as int) + hits(cv, t, iv[v as int]));
                assert(base + hits(cv, t, iv[v as int]) =~= conn_targets(cu) + sources_of(g, iv, t, v + 1));
            }
            v = v + 1;
        }
        let ghost rb = r@;
        r.push((ids[u].clone(), out));
        proof {
            assert forall|a: int| 0 <= a < u + 1 implies (#[trigger] id_lists_view(r@)[a]) == (iv[a], conn_targets(hosted_connections(g.instances[iv[a]].slots)) + sources_of(g, iv, iv[a], n as int)) by {
                if a < u {
                    assert(id_lists_view(r@)[a] == id_lists_view(rb)[a]);
                }
            }
        }
        u = u + 1;
    }
    proof {
        let c = id_lists_view(r@);
        assert(list_ids(c) =~= iv);
        assert forall|a: int, b: int| 0 <= a < b < c.len() implies (#[trigger] c[a]).0 != (#[trigger] c[b]).0 by {
            assert(c[a].0 == iv[a]);
            assert(c[b].0 == iv[b]);
        }
        assert forall|a: int| 0 <= a < c.len() implies g.instances.dom().contains((#[trigger] c[a]).0) by {
            assert(c[a].0 == iv[a]);
        }
        assert forall|x: Seq<char>| #[trigger] g.instances.dom().contains(x) implies exists|a: int| 0 <= a < c.len() && (#[trigger] c[a]).0 == x by {
            let a = choose|a: int| 0 <= a < iv.len() && iv[a] == x;
            assert(c[a].0 == iv[a]);
        }
    }
    r
}

} // verus!
