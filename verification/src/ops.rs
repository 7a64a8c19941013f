//! Edit operations on the Modelica source, and how gestures on the canvas
//! become such operations.
use crate::coords::{canvas_min_to_modelica_center, min_to_center, ModelicaPos};
use crate::fixed::{ratio_spec, Fixed, MAX_STEPS, UNIT};
use crate::geometry::{Pos, Rect};
use crate::scene::{
    law_ids_find_their_edges, law_ids_find_their_nodes, NodeData, PortRef, Scene, SceneNode,
};
use crate::text::{
    after_first, decimal, law_decimal_round_trip, parse_number, parsed_number, strip_prefix,
    text_after_first, without_prefix,
};
use vstd::prelude::*;

verus! {

/// Where a component stands: its centre, as Modelica source writes it, and its
/// size.
#[derive(Clone, Copy, Debug, PartialEq, Eq, Structural)]
pub struct Placement {
    pub x: Fixed,
    pub y: Fixed,
    pub width: Fixed,
    pub height: Fixed,
}

/// Two opposite corners.
#[derive(Clone, Copy, Debug, PartialEq, Eq, Structural)]
pub struct Corners {
    pub x1: Fixed,
    pub y1: Fixed,
    pub x2: Fixed,
    pub y2: Fixed,
}

/// A port of a component of the source.
#[derive(Debug, PartialEq, Eq)]
pub struct SourcePort {
    pub component: String,
    pub port: String,
}

/// The operations that change the structure of the source, for which a stale
/// syntax tree would mean a wrong place.
#[derive(Clone, Copy, Debug, PartialEq, Eq, Structural)]
pub enum RestructureKind {
    AddClass,
    RemoveClass,
    AddShortClass,
    AddVariable,
    RemoveVariable,
    AddEquation,
    AddIconGraphic,
    AddDiagramGraphic,
    SetExperimentAnnotation,
    ReplaceSource,
}

/// One edit of the Modelica source. The contents of structural edits are known
/// by the handles under which the host keeps them.
#[derive(Debug, PartialEq, Eq)]
pub enum ModelicaOp {
    SetPlacement { class: String, name: String, placement: Placement },
    SetPlotNodeExtent { class: String, signal_path: String, corners: Corners },
    SetDiagramTextExtent { class: String, index: u64, corners: Corners },
    AddConnection { class: String, from: SourcePort, to: SourcePort },
    RemoveConnection { class: String, from: SourcePort, to: SourcePort },
    AddComponent {
        class: String,
        class_path: String,
        name: String,
        modifications: Vec<(String, String)>,
        placement: Placement,
    },
    RemoveComponent { class: String, name: String },
    RemovePlotNode { class: String, signal_path: String },
    RemoveDiagramText { class: String, index: u64 },
    Restructure { kind: RestructureKind, payload: u64 },
}

/// A port of a component of the source, by its contents.
pub type SourcePortView = (Seq<char>, Seq<char>);

/// An edit by its contents.
pub enum OpView {
    SetPlacement { class: Seq<char>, name: Seq<char>, placement: Placement },
    SetPlotNodeExtent { class: Seq<char>, signal_path: Seq<char>, corners: Corners },
    SetDiagramTextExtent { class: Seq<char>, index: nat, corners: Corners },
    AddConnection { class: Seq<char>, from: SourcePortView, to: SourcePortView },
    RemoveConnection { class: Seq<char>, from: SourcePortView, to: SourcePortView },
    AddComponent {
        class: Seq<char>,
        class_path: Seq<char>,
        name: Seq<char>,
        modifications: Seq<(Seq<char>, Seq<char>)>,
        placement: Placement,
    },
    RemoveComponent { class: Seq<char>, name: Seq<char> },
    RemovePlotNode { class: Seq<char>, signal_path: Seq<char> },
    RemoveDiagramText { class: Seq<char>, index: nat },
    Restructure { kind: RestructureKind, payload: u64 },
}

impl View for SourcePort {
    type V = SourcePortView;

    open spec fn view(&self) -> SourcePortView {
        (self.component@, self.port@)
    }
}

/// Pairs of strings by their contents.
pub open spec fn pair_views(v: Seq<(String, String)>) -> Seq<(Seq<char>, Seq<char>)> {
    v.map_values(|p: (String, String)| (p.0@, p.1@))
}

impl View for ModelicaOp {
    type V = OpView;

    open spec fn view(&self) -> OpView {
        match *self {
            ModelicaOp::SetPlacement { class, name, placement } => OpView::SetPlacement {
                class: class@,
                name: name@,
                placement,
            },
            ModelicaOp::SetPlotNodeExtent { class, signal_path, corners } => OpView::SetPlotNodeExtent {
                class: class@,
                signal_path: signal_path@,
                corners,
            },
            ModelicaOp::SetDiagramTextExtent {
                class,
                index,
                corners,
            } => OpView::SetDiagramTextExtent { class: class@, index: index as nat, corners },
            ModelicaOp::AddConnection { class, from, to } => OpView::AddConnection {
                class: class@,
                from: from@,
                to: to@,
            },
            ModelicaOp::RemoveConnection { class, from, to } => OpView::RemoveConnection {
                class: class@,
                from: from@,
                to: to@,
            },
            ModelicaOp::AddComponent {
                class,
                class_path,
                name,
                modifications,
                placement,
            } => OpView::AddComponent {
                class: class@,
                class_path: class_path@,
                name: name@,
                modifications: pair_views(modifications@),
                placement,
            },
            ModelicaOp::RemoveComponent { class, name } => OpView::RemoveComponent {
                class: class@,
                name: name@,
            },
            ModelicaOp::RemovePlotNode { class, signal_path } => OpView::RemovePlotNode {
                class: class@,
                signal_path: signal_path@,
            },
            ModelicaOp::RemoveDiagramText { class, index } => OpView::RemoveDiagramText {
                class: class@,
                index: index as nat,
            },
            ModelicaOp::Restructure { kind, payload } => OpView::Restructure { kind, payload },
        }
    }
}

/// Edits by their contents.
pub open spec fn op_views(ops: Seq<ModelicaOp>) -> Seq<OpView> {
    ops.map_values(|o: ModelicaOp| o@)
}

// ── What a node stands for ───────────────────────────────────────────────

/// The signal of a plot node: the part of its origin behind the annotation's
/// place, else the signal of its data. None where that is empty.
pub open spec fn plot_signal(node: SceneNode) -> Option<Seq<char>> {
    let signal = match origin_signal(node.origin) {
        Some(s) => s,
        None => match node.data {
            NodeData::Plot(d) => d.signal_path@,
            _ => Seq::empty(),
        },
    };
    if signal.len() > 0 {
        Some(signal)
    } else {
        None
    }
}

/// The signal that an origin `plot:<place>:<signal>` names.
pub open spec fn origin_signal(origin: Option<String>) -> Option<Seq<char>> {
    match origin {
        Some(o) => match without_prefix(o@, "plot:"@) {
            Some(rest) => after_first(rest, ':'),
            None => None,
        },
        None => None,
    }
}

/// The text that an origin `text:<place>` names.
pub open spec fn text_place(origin: Option<String>) -> Option<nat> {
    match origin {
        Some(o) => match without_prefix(o@, "text:"@) {
            Some(rest) => match parsed_number(rest) {
                Some(n) => if n <= u64::MAX {
                    Some(n)
                } else {
                    None
                },
                None => None,
            },
            None => None,
        },
        None => None,
    }
}

/// The origin of the plot with `signal` at place `idx` of the annotation.
pub open spec fn plot_origin(idx: nat, signal: Seq<char>) -> Seq<char> {
    "plot:"@ + decimal(idx) + ":"@ + signal
}

/// The origin of the text at place `idx` of the annotation.
pub open spec fn text_origin(idx: nat) -> Seq<char> {
    "text:"@ + decimal(idx)
}

fn signal_of_origin(origin: &Option<String>) -> (r: Option<String>)
    ensures
        match r {
            Some(s) => origin_signal(*origin) == Some(s@),
            None => origin_signal(*origin) is None,
        },
{
    match origin {
        Some(o) => match strip_prefix(o.as_str(), "plot:") {
            Some(rest) => text_after_first(rest.as_str(), ':'),
            None => None,
        },
        None => None,
    }
}

fn signal_of_plot(node: &SceneNode) -> (r: Option<String>)
    ensures
        match r {
            Some(s) => plot_signal(*node) == Some(s@),
            None => plot_signal(*node) is None,
        },
{
    let signal = match signal_of_origin(&node.origin) {
        Some(s) => s,
        None => match &node.data {
            NodeData::Plot(d) => d.signal_path.clone(),
            _ => String::new(),
        },
    };
    if signal.as_str().is_empty() {
        None
    } else {
        Some(signal)
    }
}

fn place_of_text(origin: &Option<String>) -> (r: Option<u64>)
    ensures
        match r {
            Some(n) => text_place(*origin) == Some(n as nat),
            None => text_place(*origin) is None,
        },
{
    match origin {
        Some(o) => match strip_prefix(o.as_str(), "text:") {
            Some(rest) => parse_number(rest.as_str()),
            None => None,
        },
        None => None,
    }
}

// ── Gestures ─────────────────────────────────────────────────────────────

/// What happened on the canvas.
#[derive(Debug, PartialEq, Eq)]
pub enum SceneEvent {
    NodeMoved { id: u64, new_min: Pos },
    NodeResized { id: u64, new_rect: Rect },
    EdgeCreated { from: PortRef, to: PortRef },
    EdgeDeleted { id: u64 },
    NodeDeleted { id: u64, orphaned_edges: Vec<u64> },
    NodeDoubleClicked { id: u64 },
    SelectionChanged,
}

/// A size, at least one on each axis.
pub open spec fn size_at_least_one(r: Rect) -> (Fixed, Fixed) {
    (r.width_spec().max_spec(ratio_spec(1, 1)), r.height_spec().max_spec(ratio_spec(1, 1)))
}

pub open spec fn placement_spec(min: Pos, w: Fixed, h: Fixed) -> Placement {
    let m = min_to_center(min, w, h);
    Placement { x: m.x, y: m.y, width: w, height: h }
}

/// The corners of a box on the canvas as a plot's annotation writes them.
pub open spec fn plot_corners(min: Pos, max: Pos) -> Corners {
    Corners { x1: min.x, y1: min.y, x2: max.x, y2: max.y }
}

/// The corners of a box on the canvas as a text's annotation writes them.
pub open spec fn text_corners(min: Pos, max: Pos) -> Corners {
    Corners { x1: min.x, y1: min.y.neg_spec(), x2: max.x, y2: max.y.neg_spec() }
}

/// The edit that puts a node into a box: `min` is its corner, `max` the
/// opposite one, `w` and `h` its size.
pub open spec fn reshape_op(
    node: SceneNode,
    min: Pos,
    max: Pos,
    w: Fixed,
    h: Fixed,
    class: Seq<char>,
) -> Seq<OpView> {
    match node.data {
        NodeData::Plot(_) => match plot_signal(node) {
            Some(signal_path) => seq![
                OpView::SetPlotNodeExtent { class, signal_path, corners: plot_corners(min, max) },
            ],
            None => Seq::empty(),
        },
        NodeData::Text(_) => match text_place(node.origin) {
            Some(index) => seq![
                OpView::SetDiagramTextExtent { class, index, corners: text_corners(min, max) },
            ],
            None => Seq::empty(),
        },
        NodeData::Icon(_) => match node.origin {
            Some(o) => seq![
                OpView::SetPlacement { class, name: o@, placement: placement_spec(min, w, h) },
            ],
            None => Seq::empty(),
        },
    }
}

/// The edit for moving a node: it keeps its size, which is at least one.
pub open spec fn move_op(node: SceneNode, new_min: Pos, class: Seq<char>) -> Seq<OpView> {
    let (w, h) = size_at_least_one(node.rect);
    let max = Pos { x: new_min.x.plus_spec(w), y: new_min.y.plus_spec(h) };
    reshape_op(node, new_min, max, w, h, class)
}

/// The edit for resizing a node.
pub open spec fn resize_op(node: SceneNode, new_rect: Rect, class: Seq<char>) -> Seq<OpView> {
    let (w, h) = size_at_least_one(new_rect);
    reshape_op(node, new_rect.min, new_rect.max, w, h, class)
}

/// The port of the source that an end of an edge stands for.
pub open spec fn source_port(scene: Scene, end: PortRef) -> Option<SourcePortView> {
    match scene.node_spec(end.node) {
        Some(n) => match n.origin {
            Some(o) => Some((o@, end.port@)),
            None => None,
        },
        None => None,
    }
}

/// The edit that connects two ports.
pub open spec fn connect_op(scene: Scene, from: PortRef, to: PortRef, class: Seq<char>) -> Seq<OpView> {
    match (source_port(scene, from), source_port(scene, to)) {
        (Some(f), Some(t)) => seq![OpView::AddConnection { class, from: f, to: t }],
        _ => Seq::empty(),
    }
}

/// The edit that removes an edge.
pub open spec fn remove_edge_op(scene: Scene, id: u64, class: Seq<char>) -> Seq<OpView> {
    match scene.edge_spec(id) {
        Some(e) => match (source_port(scene, e.from), source_port(scene, e.to)) {
            (Some(f), Some(t)) => seq![OpView::RemoveConnection { class, from: f, to: t }],
            _ => Seq::empty(),
        },
        None => Seq::empty(),
    }
}

/// The edits that remove edges.
pub open spec fn remove_edge_ops(scene: Scene, ids: Seq<u64>, class: Seq<char>) -> Seq<OpView>
    decreases ids.len(),
{
    if ids.len() == 0 {
        Seq::empty()
    } else {
        remove_edge_ops(scene, ids.drop_last(), class) + remove_edge_op(scene, ids.last(), class)
    }
}

/// The edit that removes a node.
pub open spec fn remove_node_op(scene: Scene, id: u64, class: Seq<char>) -> Seq<OpView> {
    match scene.node_spec(id) {
        Some(node) => match node.data {
            NodeData::Plot(_) => match plot_signal(node) {
                Some(signal_path) => seq![OpView::RemovePlotNode { class, signal_path }],
                None => Seq::empty(),
            },
            NodeData::Text(_) => match text_place(node.origin) {
                Some(index) => seq![OpView::RemoveDiagramText { class, index }],
                None => Seq::empty(),
            },
            NodeData::Icon(_) => match node.origin {
                Some(o) => seq![OpView::RemoveComponent { class, name: o@ }],
                None => Seq::empty(),
            },
        },
        None => Seq::empty(),
    }
}

/// The edits that an event calls for.
pub open spec fn event_ops(scene: Scene, ev: SceneEvent, class: Seq<char>) -> Seq<OpView> {
    match ev {
        SceneEvent::NodeMoved { id, new_min } => match scene.node_spec(id) {
            Some(node) => move_op(node, new_min, class),
            None => Seq::empty(),
        },
        SceneEvent::NodeResized { id, new_rect } => match scene.node_spec(id) {
            Some(node) => resize_op(node, new_rect, class),
            None => Seq::empty(),
        },
        SceneEvent::EdgeCreated { from, to } => connect_op(scene, from, to, class),
        SceneEvent::EdgeDeleted { id } => remove_edge_op(scene, id, class),
        SceneEvent::NodeDeleted { id, orphaned_edges } => remove_edge_ops(
            scene,
            orphaned_edges@,
            class,
        ) + remove_node_op(scene, id, class),
        SceneEvent::NodeDoubleClicked { id } => Seq::empty(),
        SceneEvent::SelectionChanged => Seq::empty(),
    }
}

/// The edits that a run of events calls for, in order.
pub open spec fn events_ops(scene: Scene, events: Seq<SceneEvent>, class: Seq<char>) -> Seq<OpView>
    decreases events.len(),
{
    if events.len() == 0 {
        Seq::empty()
    } else {
        events_ops(scene, events.drop_last(), class) + event_ops(scene, events.last(), class)
    }
}

/// Whether an optional edit is the edit of a sequence that holds one or none.
pub open spec fn is_only_op(r: Option<ModelicaOp>, ops: Seq<OpView>) -> bool {
    match r {
        Some(op) => ops == seq![op@],
        None => ops.len() == 0,
    }
}

fn reshape(
    node: &SceneNode,
    min: Pos,
    max: Pos,
    w: Fixed,
    h: Fixed,
    class: &str,
) -> (r: Option<ModelicaOp>)
    ensures
        is_only_op(r, reshape_op(*node, min, max, w, h, class@)),
{
    let r = match &node.data {
        NodeData::Plot(_) => match signal_of_plot(node) {
            Some(signal_path) => Some(
                ModelicaOp::SetPlotNodeExtent {
                    class: class.to_owned(),
                    signal_path,
                    corners: Corners { x1: min.x, y1: min.y, x2: max.x, y2: max.y },
                },
            ),
            None => None,
        },
        NodeData::Text(_) => match place_of_text(&node.origin) {
            Some(index) => Some(
                ModelicaOp::SetDiagramTextExtent {
                    class: class.to_owned(),
                    index,
                    corners: Corners {
                        x1: min.x,
                        y1: min.y.negated(),
                        x2: max.x,
                        y2: max.y.negated(),
                    },
                },
            ),
            None => None,
        },
        NodeData::Icon(_) => match &node.origin {
            Some(name) => {
                let m = canvas_min_to_modelica_center(min, w, h);
                Some(
                    ModelicaOp::SetPlacement {
                        class: class.to_owned(),
                        name: name.clone(),
                        placement: Placement { x: m.x, y: m.y, width: w, height: h },
                    },
                )
            },
            None => None,
        },
    };
    proof {
        if r is Some {
            assert(reshape_op(*node, min, max, w, h, class@) =~= seq![r->0@]);
        }
    }
    r
}

fn resolve_port(scene: &Scene, end: &PortRef) -> (r: Option<SourcePort>)
    requires
        scene.wf(),
    ensures
        match r {
            Some(p) => source_port(*scene, *end) == Some(p@),
            None => source_port(*scene, *end) is None,
        },
{
    match scene.node(end.node) {
        Some(n) => match &n.origin {
            Some(o) => Some(SourcePort { component: o.clone(), port: end.port.clone() }),
            None => None,
        },
        None => None,
    }
}

/// The edit that removes the edge `id`, where both its ends stand for ports of
/// the source.
pub fn op_remove_edge(scene: &Scene, id: u64, class: &str) -> (r: Option<ModelicaOp>)
    requires
        scene.wf(),
    ensures
        is_only_op(r, remove_edge_op(*scene, id, class@)),
{
    let e = match scene.edge(id) {
        Some(e) => e,
        None => {
            return None;
        },
    };
    let from = match resolve_port(scene, &e.from) {
        Some(p) => p,
        None => {
            return None;
        },
    };
    let to = match resolve_port(scene, &e.to) {
        Some(p) => p,
        None => {
            return None;
        },
    };
    let op = ModelicaOp::RemoveConnection { class: class.to_owned(), from, to };
    assert(remove_edge_op(*scene, id, class@) =~= seq![op@]);
    Some(op)
}

/// The edit that removes the node `id`: plots and texts are rows of the
/// diagram annotation, icons are component declarations.
pub fn op_remove_component(scene: &Scene, id: u64, class: &str) -> (r: Option<ModelicaOp>)
    requires
        scene.wf(),
    ensures
        is_only_op(r, remove_node_op(*scene, id, class@)),
{
    let node = match scene.node(id) {
        Some(n) => n,
        None => {
            return None;
        },
    };
    let r = match &node.data {
        NodeData::Plot(_) => match signal_of_plot(node) {
            Some(signal_path) => Some(
                ModelicaOp::RemovePlotNode { class: class.to_owned(), signal_path },
            ),
            None => None,
        },
        NodeData::Text(_) => match place_of_text(&node.origin) {
            Some(index) => Some(ModelicaOp::RemoveDiagramText { class: class.to_owned(), index }),
            None => None,
        },
        NodeData::Icon(_) => match &node.origin {
            Some(o) => Some(
                ModelicaOp::RemoveComponent { class: class.to_owned(), name: o.clone() },
            ),
            None => None,
        },
    };
    proof {
        if r is Some {
            assert(remove_node_op(*scene, id, class@) =~= seq![r->0@]);
        }
    }
    r
}

fn connect(scene: &Scene, from: &PortRef, to: &PortRef, class: &str) -> (r: Option<ModelicaOp>)
    requires
        scene.wf(),
    ensures
        is_only_op(r, connect_op(*scene, *from, *to, class@)),
{
    let f = match resolve_port(scene, from) {
        Some(p) => p,
        None => {
            return None;
        },
    };
    let t = match resolve_port(scene, to) {
        Some(p) => p,
        None => {
            return None;
        },
    };
    let op = ModelicaOp::AddConnection { class: class.to_owned(), from: f, to: t };
    assert(connect_op(*scene, *from, *to, class@) =~= seq![op@]);
    Some(op)
}

fn push_op(ops: &mut Vec<ModelicaOp>, op: Option<ModelicaOp>, Ghost(added): Ghost<Seq<OpView>>)
    requires
        is_only_op(op, added),
    ensures
        op_views(final(ops)@) == op_views(old(ops)@) + added,
{
    match op {
        Some(op) => {
            let ghost before = ops@;
            ops.push(op);
            assert(op_views(ops@) =~= op_views(before) + seq![op@]);
        },
        None => {
            assert(op_views(ops@) =~= op_views(ops@) + added);
        },
    }
}

fn push_event_ops(scene: &Scene, ev: &SceneEvent, class: &str, ops: &mut Vec<ModelicaOp>)
    requires
        scene.wf(),
    ensures
        op_views(final(ops)@) == op_views(old(ops)@) + event_ops(*scene, *ev, class@),
{
    let ghost before = op_views(ops@);
    match ev {
        SceneEvent::NodeMoved { id, new_min } => {
            if let Some(node) = scene.node(*id) {
                let w = node.rect.width().larger(Fixed::whole(1));
                let h = node.rect.height().larger(Fixed::whole(1));
                let max = Pos { x: new_min.x.plus(w), y: new_min.y.plus(h) };
                let op = reshape(node, *new_min, max, w, h, class);
                push_op(ops, op, Ghost(move_op(*node, *new_min, class@)));
            }
        },
        SceneEvent::NodeResized { id, new_rect } => {
            if let Some(node) = scene.node(*id) {
                let w = new_rect.width().larger(Fixed::whole(1));
                let h = new_rect.height().larger(Fixed::whole(1));
                let op = reshape(node, new_rect.min, new_rect.max, w, h, class);
                push_op(ops, op, Ghost(resize_op(*node, *new_rect, class@)));
            }
        },
        SceneEvent::EdgeCreated { from, to } => {
            let op = connect(scene, from, to, class);
            push_op(ops, op, Ghost(connect_op(*scene, *from, *to, class@)));
        },
        SceneEvent::EdgeDeleted { id } => {
            let op = op_remove_edge(scene, *id, class);
            push_op(ops, op, Ghost(remove_edge_op(*scene, *id, class@)));
        },
        SceneEvent::NodeDeleted { id, orphaned_edges } => {
            let mut i: usize = 0;
            assert(before + remove_edge_ops(*scene, orphaned_edges@.take(0), class@) =~= before);
            while i < orphaned_edges.len()
                invariant
                    scene.wf(),
                    i <= orphaned_edges@.len(),
                    op_views(ops@) == before + remove_edge_ops(
                        *scene,
                        orphaned_edges@.take(i as int),
                        class@,
                    ),
                decreases orphaned_edges@.len() - i,
            {
                let ghost taken = orphaned_edges@.take(i + 1);
                assert(taken.drop_last() =~= orphaned_edges@.take(i as int));
                assert(taken.last() == orphaned_edges@[i as int]);
                let op = op_remove_edge(scene, orphaned_edges[i], class);
                push_op(ops, op, Ghost(remove_edge_op(*scene, orphaned_edges@[i as int], class@)));
                assert(op_views(ops@) =~= before + remove_edge_ops(*scene, taken, class@));
                i += 1;
            }
            assert(orphaned_edges@.take(i as int) =~= orphaned_edges@);
            let op = op_remove_component(scene, *id, class);
            push_op(ops, op, Ghost(remove_node_op(*scene, *id, class@)));
            assert(op_views(ops@) =~= before + event_ops(*scene, *ev, class@));
        },
        SceneEvent::NodeDoubleClicked { id: _ } => {},
        SceneEvent::SelectionChanged => {},
    }
    assert(op_views(ops@) =~= before + event_ops(*scene, *ev, class@));
}

/// The edits that a run of events on the canvas calls for, in order.
///
/// Where a node goes, the edits that remove its connections come before the
/// edit that removes the component, so that the connections still resolve.
pub fn build_ops_from_events(scene: &Scene, events: &Vec<SceneEvent>, class: &str) -> (r: Vec<
    ModelicaOp,
>)
    requires
        scene.wf(),
    ensures
        op_views(r@) == events_ops(*scene, events@, class@),
{
    let mut ops: Vec<ModelicaOp> = Vec::new();
    let mut i: usize = 0;
    assert(op_views(ops@) =~= events_ops(*scene, events@.take(0), class@));
    while i < events.len()
        invariant
            scene.wf(),
            i <= events@.len(),
            op_views(ops@) == events_ops(*scene, events@.take(i as int), class@),
        decreases events@.len() - i,
    {
        assert(events@.take(i + 1).drop_last() =~= events@.take(i as int));
        assert(events@.take(i + 1).last() == events@[i as int]);
        push_event_ops(scene, &events[i], class, &mut ops);
        i += 1;
    }
    assert(events@.take(i as int) =~= events@);
    ops
}

// ── Laws ─────────────────────────────────────────────────────────────────

proof fn lemma_edge_ops_remove_connections(scene: Scene, ids: Seq<u64>, class: Seq<char>)
    ensures
        forall|i: int|
            0 <= i < remove_edge_ops(scene, ids, class).len() ==> (#[trigger] remove_edge_ops(
                scene,
                ids,
                class,
            )[i]) is RemoveConnection,
    decreases ids.len(),
{
    if ids.len() > 0 {
        lemma_edge_ops_remove_connections(scene, ids.drop_last(), class);
    }
}

/// Deleting a node removes connections first: only the last edit can be
/// anything else.
pub proof fn law_connections_go_before_their_component(
    scene: Scene,
    id: u64,
    orphaned_edges: Vec<u64>,
    class: Seq<char>,
)
    ensures
        ({
            let ops = event_ops(scene, SceneEvent::NodeDeleted { id, orphaned_edges }, class);
            forall|i: int| 0 <= i < ops.len() - 1 ==> (#[trigger] ops[i]) is RemoveConnection
        }),
{
    lemma_edge_ops_remove_connections(scene, orphaned_edges@, class);
    let a = remove_edge_ops(scene, orphaned_edges@, class);
    let b = remove_node_op(scene, id, class);
    assert(b.len() <= 1);
    assert forall|i: int| 0 <= i < (a + b).len() - 1 implies (#[trigger] (a
        + b)[i]) is RemoveConnection by {
        assert((a + b)[i] == a[i]);
    }
}

/// The signal of a plot's origin reads back, whatever characters it holds.
pub proof fn law_plot_origin_round_trip(idx: nat, signal: Seq<char>, origin: String)
    requires
        origin@ == plot_origin(idx, signal),
    ensures
        origin_signal(Some(origin)) == Some(signal),
{
    reveal_strlit("plot:");
    reveal_strlit(":");
    let head = "plot:"@;
    let rest = decimal(idx) + ":"@ + signal;
    assert(origin@ =~= head + rest);
    assert(origin@.subrange(0, head.len() as int) =~= head);
    assert(origin@.skip(head.len() as int) =~= rest);
    law_decimal_round_trip(idx);
    let k = decimal(idx).len() as int;
    assert forall|j: int| 0 <= j < k implies rest[j] != ':' by {
        assert(rest[j] == decimal(idx)[j]);
        assert(crate::text::all_digits(decimal(idx))) by {
            crate::text::lemma_decimal_is_digits(idx);
        }
        assert(crate::text::is_digit(decimal(idx)[j]));
    }
    assert(rest[k] == ':');
    crate::text::lemma_first_index_unique(rest, ':', 0, k);
    assert(rest.skip(k + 1) =~= signal);
}

/// The place of a text's origin reads back.
pub proof fn law_text_origin_round_trip(idx: u64, origin: String)
    requires
        origin@ == text_origin(idx as nat),
    ensures
        text_place(Some(origin)) == Some(idx as nat),
{
    reveal_strlit("text:");
    let head = "text:"@;
    assert(origin@.subrange(0, head.len() as int) =~= head);
    assert(origin@.skip(head.len() as int) =~= decimal(idx as nat));
    law_decimal_round_trip(idx as nat);
}

/// A component that is moved lands where it was dropped: the corner of the box
/// around the placement's centre is the corner it was dropped at.
pub proof fn law_moved_component_lands_where_dropped(min: Pos, w: Fixed, h: Fixed)
    requires
        min.in_bounds(),
        0 <= w.steps <= crate::fixed::MAX_STEPS,
        0 <= h.steps <= crate::fixed::MAX_STEPS,
        min.x.steps + w.steps <= crate::fixed::MAX_STEPS,
        min.y.steps + h.steps <= crate::fixed::MAX_STEPS,
    ensures
        ({
            let p = placement_spec(min, w, h);
            let center = crate::coords::to_canvas(ModelicaPos { x: p.x, y: p.y });
            &&& center.x.minus_spec(p.width.half_spec()) == min.x
            &&& center.y.minus_spec(p.height.half_spec()) == min.y
        }),
{
}

/// Whether the edit removes the connection that the edge `id` of the scene shows:
/// the edge bears that id, its two ends are nodes that stand for components, and
/// the edit names those components and the ports of the edge.
pub open spec fn removes_edge(scene: Scene, id: u64, class: Seq<char>, op: OpView) -> bool {
    exists|j: int, a: int, b: int|
        {
            &&& 0 <= j < scene.edges@.len() && (#[trigger] scene.edges@[j]).id == id
            &&& 0 <= a < scene.nodes@.len() && (#[trigger] scene.nodes@[a]).id
                == scene.edges@[j].from.node && scene.nodes@[a].origin is Some
            &&& 0 <= b < scene.nodes@.len() && (#[trigger] scene.nodes@[b]).id
                == scene.edges@[j].to.node && scene.nodes@[b].origin is Some
            &&& op == (OpView::RemoveConnection {
                class,
                from: (scene.nodes@[a].origin->0@, scene.edges@[j].from.port@),
                to: (scene.nodes@[b].origin->0@, scene.edges@[j].to.port@),
            })
        }
}

/// Whether the scene has an edge `id` whose two ends are nodes that stand for
/// components.
pub open spec fn is_source_edge(scene: Scene, id: u64) -> bool {
    exists|j: int, a: int, b: int|
        {
            &&& 0 <= j < scene.edges@.len() && (#[trigger] scene.edges@[j]).id == id
            &&& 0 <= a < scene.nodes@.len() && (#[trigger] scene.nodes@[a]).id
                == scene.edges@[j].from.node && scene.nodes@[a].origin is Some
            &&& 0 <= b < scene.nodes@.len() && (#[trigger] scene.nodes@[b]).id
                == scene.edges@[j].to.node && scene.nodes@[b].origin is Some
        }
}

proof fn lemma_remove_edge_op(scene: Scene, id: u64, class: Seq<char>)
    requires
        scene.wf(),
    ensures
        is_source_edge(scene, id) ==> remove_edge_op(scene, id, class).len() == 1 && removes_edge(
            scene,
            id,
            class,
            remove_edge_op(scene, id, class)[0],
        ),
        !is_source_edge(scene, id) ==> remove_edge_op(scene, id, class).len() == 0,
{
    if is_source_edge(scene, id) {
        let (j, a, b) = choose|j: int, a: int, b: int|
            {
                &&& 0 <= j < scene.edges@.len() && (#[trigger] scene.edges@[j]).id == id
                &&& 0 <= a < scene.nodes@.len() && (#[trigger] scene.nodes@[a]).id
                    == scene.edges@[j].from.node && scene.nodes@[a].origin is Some
                &&& 0 <= b < scene.nodes@.len() && (#[trigger] scene.nodes@[b]).id
                    == scene.edges@[j].to.node && scene.nodes@[b].origin is Some
            };
        law_ids_find_their_edges(scene, j, id);
        law_ids_find_their_nodes(scene, a, id);
        law_ids_find_their_nodes(scene, b, id);
        let op = remove_edge_op(scene, id, class)[0];
        assert(scene.edges@[j].id == id);
        assert(scene.nodes@[a].id == scene.edges@[j].from.node);
        assert(scene.nodes@[b].id == scene.edges@[j].to.node);
    } else if remove_edge_op(scene, id, class).len() > 0 {
        law_ids_find_their_edges(scene, 0, id);
        let e = scene.edge_spec(id)->0;
        law_ids_find_their_nodes(scene, 0, e.from.node);
        law_ids_find_their_nodes(scene, 0, e.to.node);
        let j = choose|j: int| 0 <= j < scene.edges@.len() && scene.edges@[j] == e;
        let f = scene.node_spec(e.from.node)->0;
        let t = scene.node_spec(e.to.node)->0;
        let a = choose|a: int| 0 <= a < scene.nodes@.len() && scene.nodes@[a] == f;
        let b = choose|b: int| 0 <= b < scene.nodes@.len() && scene.nodes@[b] == t;
        assert(scene.edges@[j].id == id);
        assert(scene.nodes@[a].id == scene.edges@[j].from.node);
        assert(scene.nodes@[b].id == scene.edges@[j].to.node);
    }
}

proof fn lemma_remove_edge_ops(scene: Scene, ids: Seq<u64>, class: Seq<char>) -> (at: Seq<int>)
    requires
        scene.wf(),
    ensures
        at.len() == remove_edge_ops(scene, ids, class).len(),
        forall|a: int, b: int| 0 <= a < b < at.len() ==> at[a] < at[b],
        forall|i: int|
            0 <= i < ids.len() && is_source_edge(scene, #[trigger] ids[i]) ==> at.contains(i),
        forall|k: int|
            0 <= k < at.len() ==> {
                &&& 0 <= #[trigger] at[k] < ids.len()
                &&& is_source_edge(scene, ids[at[k]])
                &&& removes_edge(
                    scene,
                    ids[at[k]],
                    class,
                    remove_edge_ops(scene, ids, class)[k],
                )
            },
    decreases ids.len(),
{
    if ids.len() == 0 {
        Seq::empty()
    } else {
        let rest = ids.drop_last();
        let before = lemma_remove_edge_ops(scene, rest, class);
        lemma_remove_edge_op(scene, ids.last(), class);
        let n = ids.len() - 1;
        let at = if is_source_edge(scene, ids.last()) {
            before.push(n)
        } else {
            before
        };
        let all = remove_edge_ops(scene, ids, class);
        assert forall|i: int| 0 <= i < ids.len() && is_source_edge(
            scene,
            #[trigger] ids[i],
        ) implies at.contains(i) by {
            if i < n {
                assert(rest[i] == ids[i]);
                let k = choose|k: int| 0 <= k < before.len() && before[k] == i;
                assert(at[k] == i);
            } else {
                assert(at[before.len() as int] == i);
            }
        }
        assert forall|k: int| 0 <= k < at.len() implies {
            &&& 0 <= #[trigger] at[k] < ids.len()
            &&& is_source_edge(scene, ids[at[k]])
            &&& removes_edge(scene, ids[at[k]], class, all[k])
        } by {
            if k < before.len() {
                assert(at[k] == before[k]);
                assert(ids[at[k]] == rest[before[k]]);
                assert(all[k] == remove_edge_ops(scene, rest, class)[k]);
            } else {
                assert(all[k] == remove_edge_op(scene, ids.last(), class)[0]);
            }
        }
        at
    }
}

/// Deleting a node removes every connection that it leaves behind: there are
/// places `at` among the orphaned edges, increasing, which are exactly those whose
/// edge shows a connection of the source, and the edits start with the removal of
/// each of these connections, in that order. Behind them comes one edit at most.
pub proof fn law_deleting_a_node_removes_all_its_connections(
    scene: Scene,
    id: u64,
    orphaned_edges: Vec<u64>,
    class: Seq<char>,
) -> (at: Seq<int>)
    requires
        scene.wf(),
    ensures
        ({
            let ops = event_ops(scene, SceneEvent::NodeDeleted { id, orphaned_edges }, class);
            &&& at.len() <= ops.len() <= at.len() + 1
            &&& forall|a: int, b: int| 0 <= a < b < at.len() ==> at[a] < at[b]
            &&& forall|i: int|
                0 <= i < orphaned_edges@.len() && is_source_edge(
                    scene,
                    #[trigger] orphaned_edges@[i],
                ) ==> at.contains(i)
            &&& forall|k: int|
                0 <= k < at.len() ==> {
                    &&& 0 <= #[trigger] at[k] < orphaned_edges@.len()
                    &&& is_source_edge(scene, orphaned_edges@[at[k]])
                    &&& removes_edge(scene, orphaned_edges@[at[k]], class, ops[k])
                }
            &&& ops.len() == at.len() + 1 ==> !(ops.last() is RemoveConnection)
        }),
{
    let at = lemma_remove_edge_ops(scene, orphaned_edges@, class);
    let ops = event_ops(scene, SceneEvent::NodeDeleted { id, orphaned_edges }, class);
    let a = remove_edge_ops(scene, orphaned_edges@, class);
    let b = remove_node_op(scene, id, class);
    assert(ops == a + b);
    assert(b.len() <= 1);
    assert forall|k: int| 0 <= k < at.len() implies {
        &&& 0 <= #[trigger] at[k] < orphaned_edges@.len()
        &&& is_source_edge(scene, orphaned_edges@[at[k]])
        &&& removes_edge(scene, orphaned_edges@[at[k]], class, ops[k])
    } by {
        assert(ops[k] == a[k]);
    }
    at
}

/// Deleting a node ends with the edit that takes it out of the source: an icon's
/// component by its name, a text's row by its place, a plot's by its signal.
pub proof fn law_deleting_a_node_removes_what_it_stands_for(
    scene: Scene,
    k: int,
    orphaned_edges: Vec<u64>,
    class: Seq<char>,
)
    requires
        scene.wf(),
        0 <= k < scene.nodes@.len(),
    ensures
        ({
            let node = scene.nodes@[k];
            let id = node.id;
            let ops = event_ops(scene, SceneEvent::NodeDeleted { id, orphaned_edges }, class);
            &&& node.data is Icon && node.origin is Some ==> ops.len() > 0 && ops.last() == (
            OpView::RemoveComponent { class, name: node.origin->0@ })
            &&& node.data is Text ==> (text_place(node.origin) matches Some(index) ==> ops.len() > 0
                && ops.last() == (OpView::RemoveDiagramText { class, index }))
            &&& node.data is Plot ==> (plot_signal(node) matches Some(signal_path) ==> ops.len() > 0
                && ops.last() == (OpView::RemovePlotNode { class, signal_path }))
        }),
{
    law_ids_find_their_nodes(scene, k, 0);
}

/// Deleting an edge that shows a connection of the source gives one edit, which
/// removes that connection; deleting any other gives none.
pub proof fn law_deleting_an_edge_removes_its_connection(scene: Scene, id: u64, class: Seq<char>)
    requires
        scene.wf(),
    ensures
        ({
            let ops = event_ops(scene, SceneEvent::EdgeDeleted { id }, class);
            &&& is_source_edge(scene, id) ==> ops.len() == 1 && removes_edge(
                scene,
                id,
                class,
                ops[0],
            )
            &&& !is_source_edge(scene, id) ==> ops.len() == 0
        }),
{
    lemma_remove_edge_op(scene, id, class);
}

/// Drawing a wire from a port of one component to a port of another gives one
/// edit, which connects the two, from the first to the second.
pub proof fn law_drawing_a_wire_connects_its_ports(
    scene: Scene,
    a: int,
    b: int,
    from: PortRef,
    to: PortRef,
    class: Seq<char>,
)
    requires
        scene.wf(),
        0 <= a < scene.nodes@.len(),
        0 <= b < scene.nodes@.len(),
        from.node == scene.nodes@[a].id,
        to.node == scene.nodes@[b].id,
    ensures
        ({
            let ops = event_ops(scene, SceneEvent::EdgeCreated { from, to }, class);
            let joins = scene.nodes@[a].origin is Some && scene.nodes@[b].origin is Some;
            &&& ops.len() == (if joins {
                1int
            } else {
                0
            })
            &&& joins ==> ops[0] == (OpView::AddConnection {
                class,
                from: (scene.nodes@[a].origin->0@, from.port@),
                to: (scene.nodes@[b].origin->0@, to.port@),
            })
        }),
{
    law_ids_find_their_nodes(scene, a, 0);
    law_ids_find_their_nodes(scene, b, 0);
}

/// Whether a placement has the size of a box, in steps, but at least a unit on
/// each axis, and its centre, as the source writes it, lies half the size to the
/// right of and below the box's corner, to within a step.
pub open spec fn is_placed_at(p: Placement, min: Pos, w: int, h: int) -> bool {
    &&& p.width.steps == (if w >= UNIT {
        w
    } else {
        UNIT as int
    })
    &&& p.height.steps == (if h >= UNIT {
        h
    } else {
        UNIT as int
    })
    &&& -1 <= 2 * p.x.steps - (2 * min.x.steps + p.width.steps) <= 1
    &&& -1 <= -2 * p.y.steps - (2 * min.y.steps + p.height.steps) <= 1
}

/// Whether a box and what a gesture makes of it lie between the bounds of
/// [`Fixed`].
pub open spec fn box_fits(min: Pos, r: Rect) -> bool {
    &&& min.in_bounds()
    &&& -MAX_STEPS <= r.max.x.steps - r.min.x.steps <= MAX_STEPS
    &&& -MAX_STEPS <= r.max.y.steps - r.min.y.steps <= MAX_STEPS
    &&& min.x.steps + UNIT <= MAX_STEPS
    &&& min.y.steps + UNIT <= MAX_STEPS
    &&& min.x.steps + (r.max.x.steps - r.min.x.steps) <= MAX_STEPS
    &&& min.y.steps + (r.max.y.steps - r.min.y.steps) <= MAX_STEPS
}

/// Moving an icon gives one edit, which places its component where the icon was
/// dropped, with the size that it has.
pub proof fn law_moving_an_icon_places_its_component(
    scene: Scene,
    k: int,
    new_min: Pos,
    class: Seq<char>,
)
    requires
        scene.wf(),
        0 <= k < scene.nodes@.len(),
        scene.nodes@[k].data is Icon,
        box_fits(new_min, scene.nodes@[k].rect),
    ensures
        ({
            let node = scene.nodes@[k];
            let id = node.id;
            let ops = event_ops(scene, SceneEvent::NodeMoved { id, new_min }, class);
            &&& node.origin is None ==> ops.len() == 0
            &&& node.origin is Some ==> {
                &&& ops.len() == 1
                &&& ops[0] is SetPlacement
                &&& ops[0]->SetPlacement_class == class
                &&& ops[0]->SetPlacement_name == node.origin->0@
                &&& is_placed_at(
                    ops[0]->SetPlacement_placement,
                    new_min,
                    node.rect.max.x.steps - node.rect.min.x.steps,
                    node.rect.max.y.steps - node.rect.min.y.steps,
                )
            }
        }),
{
    law_ids_find_their_nodes(scene, k, 0);
    crate::fixed::law_ratios_of_whole_numbers(1, 1);
}

/// Resizing an icon gives one edit, which gives its component the new place and
/// size.
pub proof fn law_resizing_an_icon_places_its_component(
    scene: Scene,
    k: int,
    new_rect: Rect,
    class: Seq<char>,
)
    requires
        scene.wf(),
        0 <= k < scene.nodes@.len(),
        scene.nodes@[k].data is Icon,
        box_fits(new_rect.min, new_rect),
    ensures
        ({
            let node = scene.nodes@[k];
            let id = node.id;
            let ops = event_ops(scene, SceneEvent::NodeResized { id, new_rect }, class);
            &&& node.origin is None ==> ops.len() == 0
            &&& node.origin is Some ==> {
                &&& ops.len() == 1
                &&& ops[0] is SetPlacement
                &&& ops[0]->SetPlacement_class == class
                &&& ops[0]->SetPlacement_name == node.origin->0@
                &&& is_placed_at(
                    ops[0]->SetPlacement_placement,
                    new_rect.min,
                    new_rect.max.x.steps - new_rect.min.x.steps,
                    new_rect.max.y.steps - new_rect.min.y.steps,
                )
            }
        }),
{
    law_ids_find_their_nodes(scene, k, 0);
    crate::fixed::law_ratios_of_whole_numbers(1, 1);
}

/// Moving or resizing a text or a plot writes the corners of its new box: a moved
/// one keeps its size, a unit at least. A text's annotation has y upwards, a
/// plot's downwards.
pub proof fn law_texts_and_plots_keep_their_corners(
    scene: Scene,
    k: int,
    new_min: Pos,
    new_rect: Rect,
    class: Seq<char>,
)
    requires
        scene.wf(),
        0 <= k < scene.nodes@.len(),
        box_fits(new_min, scene.nodes@[k].rect),
        new_rect.min.in_bounds(),
        new_rect.max.in_bounds(),
    ensures
        ({
            let node = scene.nodes@[k];
            let id = node.id;
            let w = node.rect.max.x.steps - node.rect.min.x.steps;
            let h = node.rect.max.y.steps - node.rect.min.y.steps;
            let x2 = new_min.x.steps + (if w >= UNIT {
                w
            } else {
                UNIT as int
            });
            let y2 = new_min.y.steps + (if h >= UNIT {
                h
            } else {
                UNIT as int
            });
            let moved = event_ops(scene, SceneEvent::NodeMoved { id, new_min }, class);
            let sized = event_ops(scene, SceneEvent::NodeResized { id, new_rect }, class);
            &&& node.data is Text ==> (text_place(node.origin) matches Some(i) ==> {
                &&& moved.len() == 1
                &&& moved[0] is SetDiagramTextExtent
                &&& moved[0]->SetDiagramTextExtent_class == class
                &&& moved[0]->SetDiagramTextExtent_index == i
                &&& moved[0]->SetDiagramTextExtent_corners.x1 == new_min.x
                &&& moved[0]->SetDiagramTextExtent_corners.y1.steps == -new_min.y.steps
                &&& moved[0]->SetDiagramTextExtent_corners.x2.steps == x2
                &&& moved[0]->SetDiagramTextExtent_corners.y2.steps == -y2
                &&& sized.len() == 1
                &&& sized[0] is SetDiagramTextExtent
                &&& sized[0]->SetDiagramTextExtent_class == class
                &&& sized[0]->SetDiagramTextExtent_index == i
                &&& sized[0]->SetDiagramTextExtent_corners.x1 == new_rect.min.x
                &&& sized[0]->SetDiagramTextExtent_corners.y1.steps == -new_rect.min.y.steps
                &&& sized[0]->SetDiagramTextExtent_corners.x2 == new_rect.max.x
                &&& sized[0]->SetDiagramTextExtent_corners.y2.steps == -new_rect.max.y.steps
            })
            &&& node.data is Plot ==> (plot_signal(node) matches Some(signal) ==> {
                &&& moved.len() == 1
                &&& moved[0] is SetPlotNodeExtent
                &&& moved[0]->SetPlotNodeExtent_class == class
                &&& moved[0]->SetPlotNodeExtent_signal_path == signal
                &&& moved[0]->SetPlotNodeExtent_corners.x1 == new_min.x
                &&& moved[0]->SetPlotNodeExtent_corners.y1 == new_min.y
                &&& moved[0]->SetPlotNodeExtent_corners.x2.steps == x2
                &&& moved[0]->SetPlotNodeExtent_corners.y2.steps == y2
                &&& sized.len() == 1
                &&& sized[0] is SetPlotNodeExtent
                &&& sized[0]->SetPlotNodeExtent_class == class
                &&& sized[0]->SetPlotNodeExtent_signal_path == signal
                &&& sized[0]->SetPlotNodeExtent_corners.x1 == new_rect.min.x
                &&& sized[0]->SetPlotNodeExtent_corners.y1 == new_rect.min.y
                &&& sized[0]->SetPlotNodeExtent_corners.x2 == new_rect.max.x
                &&& sized[0]->SetPlotNodeExtent_corners.y2 == new_rect.max.y
            })
        }),
{
    law_ids_find_their_nodes(scene, k, 0);
    crate::fixed::law_ratios_of_whole_numbers(1, 1);
}

/// A plot stands for the signal that its origin names behind the annotation's
/// place, and for the signal of its data where its origin names none. An empty
/// signal is none.
pub proof fn law_plots_stand_for_their_signal(node: SceneNode, idx: nat, signal: Seq<char>)
    requires
        node.data is Plot,
    ensures
        node.origin is Some && node.origin->0@ == "plot:"@ + decimal(idx) + ":"@ + signal
            && signal.len() > 0 ==> plot_signal(node) == Some(signal),
        node.origin is None && node.data->Plot_0.signal_path@.len() > 0 ==> plot_signal(node)
            == Some(node.data->Plot_0.signal_path@),
        node.origin is None && node.data->Plot_0.signal_path@.len() == 0 ==> plot_signal(
            node,
        ) is None,
{
    if node.origin is Some && node.origin->0@ == "plot:"@ + decimal(idx) + ":"@ + signal {
        law_plot_origin_round_trip(idx, signal, node.origin->0);
    }
}

/// A run of events is handled in turn: the edits of a run that is followed by
/// another are those of the first followed by those of the second, one event gives
/// its own edits, and none gives none. A double-click and a change of the
/// selection edit nothing, nor does a gesture on a node that is not there.
pub proof fn law_events_are_handled_in_turn(
    scene: Scene,
    a: Seq<SceneEvent>,
    b: Seq<SceneEvent>,
    e: SceneEvent,
    class: Seq<char>,
)
    ensures
        events_ops(scene, a + b, class) == events_ops(scene, a, class) + events_ops(
            scene,
            b,
            class,
        ),
        events_ops(scene, seq![e], class) == event_ops(scene, e, class),
        events_ops(scene, Seq::empty(), class).len() == 0,
        e is NodeDoubleClicked || e is SelectionChanged ==> event_ops(scene, e, class).len() == 0,
        e matches SceneEvent::NodeMoved { id, new_min } && !(exists|i: int|
            0 <= i < scene.nodes@.len() && (#[trigger] scene.nodes@[i]).id == id) ==> event_ops(
            scene,
            e,
            class,
        ).len() == 0,
    decreases b.len(),
{
    reveal_with_fuel(events_ops, 2);
    assert(seq![e].drop_last() =~= Seq::<SceneEvent>::empty());
    assert(Seq::<OpView>::empty() + event_ops(scene, e, class) =~= event_ops(scene, e, class));
    if b.len() == 0 {
        assert(a + b =~= a);
        assert(events_ops(scene, a, class) + Seq::<OpView>::empty() =~= events_ops(
            scene,
            a,
            class,
        ));
    } else {
        law_events_are_handled_in_turn(scene, a, b.drop_last(), e, class);
        assert((a + b).drop_last() =~= a + b.drop_last());
        assert((a + b).last() == b.last());
        let last = event_ops(scene, b.last(), class);
        assert(events_ops(scene, a, class) + events_ops(scene, b.drop_last(), class) + last
            =~= events_ops(scene, a, class) + (events_ops(scene, b.drop_last(), class) + last));
    }
}

/// A text stands for the place in the annotation that its origin names.
pub proof fn law_texts_stand_for_their_place(node: SceneNode, idx: u64)
    requires
        node.origin is Some,
        node.origin->0@ == "text:"@ + decimal(idx as nat),
    ensures
        text_place(node.origin) == Some(idx as nat),
{
    law_text_origin_round_trip(idx, node.origin->0);
}

/// An edit is known by its contents, each under its own name: its view has the
/// texts, ports, places and numbers of the edit itself.
pub proof fn law_edits_are_known_by_their_contents(op: ModelicaOp)
    ensures
        op matches ModelicaOp::SetPlacement { class, name, placement } ==> op@ is SetPlacement
            && op@->SetPlacement_class == class@ && op@->SetPlacement_name == name@
            && op@->SetPlacement_placement == placement,
        op matches ModelicaOp::SetPlotNodeExtent { class, signal_path, corners }
            ==> op@ is SetPlotNodeExtent && op@->SetPlotNodeExtent_class == class@
            && op@->SetPlotNodeExtent_signal_path == signal_path@
            && op@->SetPlotNodeExtent_corners == corners,
        op matches ModelicaOp::SetDiagramTextExtent { class, index, corners }
            ==> op@ is SetDiagramTextExtent && op@->SetDiagramTextExtent_class == class@
            && op@->SetDiagramTextExtent_index == index && op@->SetDiagramTextExtent_corners
            == corners,
        op matches ModelicaOp::AddConnection { class, from, to } ==> op@ is AddConnection
            && op@->AddConnection_class == class@ && op@->AddConnection_from == (
            from.component@, from.port@) && op@->AddConnection_to == (to.component@, to.port@),
        op matches ModelicaOp::RemoveConnection { class, from, to } ==> op@ is RemoveConnection
            && op@->RemoveConnection_class == class@ && op@->RemoveConnection_from == (
            from.component@, from.port@) && op@->RemoveConnection_to == (to.component@, to.port@),
        op matches ModelicaOp::AddComponent { class, class_path, name, modifications, placement }
            ==> op@ is AddComponent && op@->AddComponent_class == class@
            && op@->AddComponent_class_path == class_path@ && op@->AddComponent_name == name@
            && op@->AddComponent_placement == placement && op@->AddComponent_modifications.len()
            == modifications@.len(),
        op matches ModelicaOp::AddComponent { modifications, .. } ==> forall|i: int|
            0 <= i < modifications@.len() ==> (#[trigger] op@->AddComponent_modifications[i]) == (
            modifications@[i].0@, modifications@[i].1@),
        op matches ModelicaOp::RemoveComponent { class, name } ==> op@ is RemoveComponent
            && op@->RemoveComponent_class == class@ && op@->RemoveComponent_name == name@,
        op matches ModelicaOp::RemovePlotNode { class, signal_path } ==> op@ is RemovePlotNode
            && op@->RemovePlotNode_class == class@ && op@->RemovePlotNode_signal_path
            == signal_path@,
        op matches ModelicaOp::RemoveDiagramText { class, index } ==> op@ is RemoveDiagramText
            && op@->RemoveDiagramText_class == class@ && op@->RemoveDiagramText_index == index,
{
}

} // verus!
