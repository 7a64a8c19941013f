//! From a diagram to a scene: every component becomes an icon node, every
//! connection between known components an edge.
use crate::coords::{modelica_to_canvas, to_canvas, ModelicaPos};
use crate::fixed::{ratio_spec, Fixed, MAX_STEPS, UNIT};
use crate::geometry::{
    edge_dir, fallback_offset, port_edge_dir, port_fallback_offset_for_size, PortDir, Pos, Rect,
};
use crate::model::{
    copy_flow_vars, last_node, lemma_last_node, node_of,
    DiagramEdge, DiagramNode, FlowVarMeta, ParamDef, PortDef, PortKind, VisualDiagram,
};
use crate::scene::{
    ConnectionEdgeData, IconNodeData, NodeData, PortConnector, PortRef, Scene, SceneEdge,
    SceneNode, ScenePort,
};
use crate::text::{before_first, leaf, same_text, text3, text_before_first};
use crate::units::{si_unit_suffix, unit_of_quantity};
use vstd::prelude::*;

verus! {

/// What the host's wire router is asked: a path from one port to another
/// around the other icons.
#[derive(Debug, PartialEq, Eq)]
pub struct RouteRequest {
    pub from: Pos,
    pub from_out: (i32, i32),
    pub to: Pos,
    pub to_out: (i32, i32),
    pub obstacles: Vec<Rect>,
    /// The width of the grid that the path is searched on.
    pub grid: Fixed,
    /// What a bend costs. It is high, so that a path with few bends is taken
    /// even where it is longer.
    pub bend_penalty: Fixed,
    /// How far the path keeps from icons.
    pub clearance: Fixed,
}

/// A projected diagram: its scene, the scene's id of each component, and for
/// each edge the route that is still to be found.
#[derive(Debug, PartialEq, Eq)]
pub struct Projection {
    pub scene: Scene,
    pub ids: Vec<(u64, u64)>,
    pub routes: Vec<Option<RouteRequest>>,
}

// ── Components ───────────────────────────────────────────────────────────

/// The width and height of an icon whose frame is `frame`: at least four.
pub open spec fn icon_size(frame: Rect) -> (Fixed, Fixed) {
    (
        frame.width_spec().max_spec(ratio_spec(4, 1)),
        frame.height_spec().max_spec(ratio_spec(4, 1)),
    )
}

/// Where port `i` lies relative to the icon's corner: where its placement puts
/// it, or where ports without a placement go.
pub open spec fn port_offset(p: PortDef, i: int, frame: Rect) -> Pos {
    let (w, h) = icon_size(frame);
    let world = if p.at.x.steps == 0 && p.at.y.steps == 0 {
        let f = fallback_offset(i as nat, w, h);
        Pos { x: frame.min.x.plus_spec(f.x), y: frame.min.y.plus_spec(f.y) }
    } else {
        p.world
    };
    Pos { x: world.x.minus_spec(frame.min.x), y: world.y.minus_spec(frame.min.y) }
}

/// The value that a list of modifications gives to `name`.
pub open spec fn modified_value(values: Seq<(String, String)>, name: Seq<char>, from: int) -> Option<
    Seq<char>,
>
    decreases values.len() - from,
{
    if from >= values.len() {
        None
    } else if values[from].0@ == name {
        Some(values[from].1@)
    } else {
        modified_value(values, name, from + 1)
    }
}

/// The value shown for a parameter: the instance's own where it gives one that
/// is not empty, else the class default, followed by the unit of the
/// parameter's type.
pub open spec fn shown_value(p: ParamDef, values: Seq<(String, String)>) -> Seq<char> {
    let own = modified_value(values, p.name@, 0);
    let v = if own is Some && own->0.len() > 0 {
        own->0
    } else {
        p.default@
    };
    let unit = unit_of_quantity(leaf(p.param_type@));
    if unit is Some && v.len() > 0 {
        v + " "@ + unit->0
    } else {
        v
    }
}

pub open spec fn is_port_of(s: ScenePort, p: PortDef, i: int, frame: Rect) -> bool {
    &&& s.id@ == p.name@
    &&& s.local_offset == port_offset(p, i, frame)
    &&& s.kind == p.kind
}

pub open spec fn is_connector_of(c: PortConnector, p: PortDef) -> bool {
    &&& c.port@ == p.name@
    &&& c.path@ == p.msl_path@
    &&& c.size_x == p.size_x
    &&& c.size_y == p.size_y
    &&& c.rotation_deg == p.rotation_deg
}

pub open spec fn is_parameter_of(
    s: (String, String),
    p: ParamDef,
    values: Seq<(String, String)>,
) -> bool {
    &&& s.0@ == p.name@
    &&& s.1@ == shown_value(p, values)
}

/// Whether `data` shows the component `d`. The graphics of a diagram
/// annotation are shown for connectors only.
pub open spec fn shows_component(data: IconNodeData, d: DiagramNode) -> bool {
    let def = d.component_def;
    &&& data.qualified_type@ == def.msl_path@
    &&& data.icon_only == def.is_icon_only
    &&& data.expandable_connector == def.is_expandable_connector
    &&& data.icon_graphics == def.icon_graphics
    &&& data.diagram_graphics == (if def.class_kind@ == "connector"@ {
        def.diagram_graphics
    } else {
        None
    })
    &&& data.rotation_deg == d.rotation_deg
    &&& data.mirror_x == d.mirror_x
    &&& data.mirror_y == d.mirror_y
    &&& data.instance_name@ == d.instance_name@
    &&& data.is_conditional == d.is_conditional
    &&& data.parameters@.len() == def.parameters@.len()
    &&& forall|i: int|
        0 <= i < def.parameters@.len() ==> is_parameter_of(
            #[trigger] data.parameters@[i],
            def.parameters@[i],
            d.parameter_values@,
        )
    &&& data.port_connector_paths@.len() == def.ports@.len()
    &&& forall|i: int|
        0 <= i < def.ports@.len() ==> is_connector_of(
            #[trigger] data.port_connector_paths@[i],
            def.ports@[i],
        )
}

/// Whether `n` is the node `id` for the component `d`. An icon is sized by its
/// annotation, so the node is not resizable.
pub open spec fn is_node_of(n: SceneNode, d: DiagramNode, id: u64) -> bool {
    let (w, h) = icon_size(d.frame);
    &&& n.id == id
    &&& n.rect == Rect::sized_spec(d.frame.min, w, h)
    &&& n.data matches NodeData::Icon(data) && shows_component(data, d)
    &&& n.ports@.len() == d.component_def.ports@.len()
    &&& forall|i: int|
        0 <= i < n.ports@.len() ==> is_port_of(
            #[trigger] n.ports@[i],
            d.component_def.ports@[i],
            i,
            d.frame,
        )
    &&& n.label@ == d.instance_name@
    &&& n.origin matches Some(o) && o@ == d.instance_name@
    &&& !n.resizable
    &&& n.visual_rect == d.visual
}

fn project_ports(d: &DiagramNode) -> (r: Vec<ScenePort>)
    ensures
        r@.len() == d.component_def.ports@.len(),
        forall|i: int|
            0 <= i < r@.len() ==> is_port_of(
                #[trigger] r@[i],
                d.component_def.ports@[i],
                i,
                d.frame,
            ),
{
    let ports = &d.component_def.ports;
    let w = d.frame.width().larger(Fixed::whole(4));
    let h = d.frame.height().larger(Fixed::whole(4));
    let mut out: Vec<ScenePort> = Vec::new();
    let mut i: usize = 0;
    while i < ports.len()
        invariant
            i <= ports@.len(),
            ports@ == d.component_def.ports@,
            (w, h) == icon_size(d.frame),
            h.steps >= 0,
            out@.len() == i,
            forall|j: int| 0 <= j < i ==> is_port_of(#[trigger] out@[j], ports@[j], j, d.frame),
        decreases ports@.len() - i,
    {
        let p = &ports[i];
        let min = d.frame.min;
        let world = if p.at.x.steps == 0 && p.at.y.steps == 0 {
            let f = port_fallback_offset_for_size(i, ports.len(), w, h);
            Pos { x: min.x.plus(f.x), y: min.y.plus(f.y) }
        } else {
            p.world
        };
        out.push(
            ScenePort {
                id: p.name.clone(),
                local_offset: Pos { x: world.x.minus(min.x), y: world.y.minus(min.y) },
                kind: p.kind,
            },
        );
        i += 1;
    }
    out
}

pub fn project_connectors(ports: &Vec<PortDef>) -> (r: Vec<PortConnector>)
    ensures
        r@.len() == ports@.len(),
        forall|i: int| 0 <= i < r@.len() ==> is_connector_of(#[trigger] r@[i], ports@[i]),
{
    let mut out: Vec<PortConnector> = Vec::new();
    let mut i: usize = 0;
    while i < ports.len()
        invariant
            i <= ports@.len(),
            out@.len() == i,
            forall|j: int| 0 <= j < i ==> is_connector_of(#[trigger] out@[j], ports@[j]),
        decreases ports@.len() - i,
    {
        let p = &ports[i];
        out.push(
            PortConnector {
                port: p.name.clone(),
                path: p.msl_path.clone(),
                size_x: p.size_x,
                size_y: p.size_y,
                rotation_deg: p.rotation_deg,
            },
        );
        i += 1;
    }
    out
}

fn parameter_value(p: &ParamDef, values: &Vec<(String, String)>) -> (r: String)
    ensures
        r@ == shown_value(*p, values@),
{
    let mut v: String = p.default.clone();
    let mut i: usize = 0;
    while i < values.len()
        invariant_except_break
            i <= values@.len(),
            v@ == p.default@,
            modified_value(values@, p.name@, 0) == modified_value(values@, p.name@, i as int),
        ensures
            v@ == ({
                let own = modified_value(values@, p.name@, 0);
                if own is Some && own->0.len() > 0 {
                    own->0
                } else {
                    p.default@
                }
            }),
        decreases values@.len() - i,
    {
        if same_text(values[i].0.as_str(), p.name.as_str()) {
            if !values[i].1.as_str().is_empty() {
                v = values[i].1.clone();
            }
            break;
        }
        i += 1;
    }
    match si_unit_suffix(p.param_type.as_str()) {
        Some(unit) => if v.as_str().is_empty() {
            v
        } else {
            text3(v.as_str(), " ", unit)
        },
        None => v,
    }
}

fn project_parameters(d: &DiagramNode) -> (r: Vec<(String, String)>)
    ensures
        r@.len() == d.component_def.parameters@.len(),
        forall|i: int|
            0 <= i < r@.len() ==> is_parameter_of(
                #[trigger] r@[i],
                d.component_def.parameters@[i],
                d.parameter_values@,
            ),
{
    let params = &d.component_def.parameters;
    let mut out: Vec<(String, String)> = Vec::new();
    let mut i: usize = 0;
    while i < params.len()
        invariant
            i <= params@.len(),
            params@ == d.component_def.parameters@,
            out@.len() == i,
            forall|j: int|
                0 <= j < i ==> is_parameter_of(
                    #[trigger] out@[j],
                    params@[j],
                    d.parameter_values@,
                ),
        decreases params@.len() - i,
    {
        out.push((params[i].name.clone(), parameter_value(&params[i], &d.parameter_values)));
        i += 1;
    }
    out
}

fn project_node(d: &DiagramNode, id: u64) -> (r: SceneNode)
    ensures
        is_node_of(r, *d, id),
{
    let w = d.frame.width().larger(Fixed::whole(4));
    let h = d.frame.height().larger(Fixed::whole(4));
    let def = &d.component_def;
    let diagram_graphics = if same_text(def.class_kind.as_str(), "connector") {
        def.diagram_graphics
    } else {
        None
    };
    SceneNode {
        id,
        rect: Rect::from_min_size(d.frame.min, w, h),
        data: NodeData::Icon(
            IconNodeData {
                qualified_type: def.msl_path.clone(),
                icon_only: def.is_icon_only,
                expandable_connector: def.is_expandable_connector,
                icon_graphics: def.icon_graphics,
                diagram_graphics,
                rotation_deg: d.rotation_deg,
                mirror_x: d.mirror_x,
                mirror_y: d.mirror_y,
                instance_name: d.instance_name.clone(),
                parameters: project_parameters(d),
                port_connector_paths: project_connectors(&def.ports),
                is_conditional: d.is_conditional,
            },
        ),
        ports: project_ports(d),
        label: d.instance_name.clone(),
        origin: Some(d.instance_name.clone()),
        resizable: false,
        visual_rect: d.visual,
    }
}

// ── Connections ──────────────────────────────────────────────────────────

/// The first port named `name`, or the number of ports.
pub open spec fn first_port(ports: Seq<PortDef>, name: Seq<char>, from: int) -> int
    decreases ports.len() - from,
{
    if from >= ports.len() {
        ports.len() as int
    } else if ports[from].name@ == name {
        from
    } else {
        first_port(ports, name, from + 1)
    }
}

/// The port that an endpoint named `name` lies on: the port of that name, else
/// the one that the part before the first dot names.
pub open spec fn port_named(ports: Seq<PortDef>, name: Seq<char>) -> Option<PortDef> {
    let i = first_port(ports, name, 0);
    let j = first_port(ports, before_first(name, '.'), 0);
    if 0 <= i < ports.len() {
        Some(ports[i])
    } else if 0 <= j < ports.len() {
        Some(ports[j])
    } else {
        None
    }
}

/// The port `name` of the component `id`.
pub open spec fn port_of(nodes: Seq<DiagramNode>, id: u64, name: Seq<char>) -> Option<PortDef> {
    match node_of(nodes, id) {
        Some(n) => port_named(n.component_def.ports@, name),
        None => None,
    }
}

pub open spec fn dir_of(port: Option<PortDef>) -> PortDir {
    match port {
        Some(p) => edge_dir(p.dir.x, p.dir.y),
        None => PortDir::Inside,
    }
}

/// The name by which a simulation knows the port `port` of the component `id`.
pub open spec fn port_path(nodes: Seq<DiagramNode>, id: u64, port: Seq<char>) -> Seq<char> {
    match node_of(nodes, id) {
        Some(n) => n.instance_name@ + "."@ + port,
        None => Seq::empty(),
    }
}

/// Whether both ends of a connection are components of the diagram.
pub open spec fn is_joined(nodes: Seq<DiagramNode>, e: DiagramEdge) -> bool {
    last_node(nodes, e.source_node) >= 0 && last_node(nodes, e.target_node) >= 0
}

/// The places of the connections of which both ends are known, in order.
pub open spec fn joined_edges(d: VisualDiagram, upto: int) -> Seq<int>
    decreases upto,
{
    if upto <= 0 {
        Seq::empty()
    } else if is_joined(d.nodes@, d.edges@[upto - 1]) {
        joined_edges(d, upto - 1).push(upto - 1)
    } else {
        joined_edges(d, upto - 1)
    }
}

/// The bends that a `Line` annotation gives, on the canvas.
pub open spec fn authored_bends(points: Seq<ModelicaPos>) -> Seq<Pos> {
    points.map_values(|p: ModelicaPos| to_canvas(p))
}

/// Whether `data` shows the connection `e`. The line colour of the source
/// port's icon wins over that of the target port's.
pub open spec fn shows_connection(
    data: ConnectionEdgeData,
    nodes: Seq<DiagramNode>,
    e: DiagramEdge,
) -> bool {
    let src = port_of(nodes, e.source_node, e.source_port@);
    let tgt = port_of(nodes, e.target_node, e.target_port@);
    &&& data.connector_type@ == (match src {
        Some(p) => p.connector_type@,
        None => Seq::empty(),
    })
    &&& data.from_dir == dir_of(src)
    &&& data.to_dir == dir_of(tgt)
    &&& data.waypoints_world@ == authored_bends(e.waypoints@)
    &&& data.icon_color == (if src is Some && src->0.color is Some {
        src->0.color
    } else if tgt is Some {
        tgt->0.color
    } else {
        None
    })
    &&& data.source_path@ == port_path(nodes, e.source_node, e.source_port@)
    &&& data.target_path@ == port_path(nodes, e.target_node, e.target_port@)
    &&& data.kind == (match src {
        Some(p) => p.kind,
        None => PortKind::Acausal,
    })
    &&& data.flow_vars@ == (match src {
        Some(p) => p.flow_vars@,
        None => Seq::empty(),
    })
}

/// Whether `s` is the edge `id` for the connection `e`.
pub open spec fn is_edge_of(s: SceneEdge, nodes: Seq<DiagramNode>, e: DiagramEdge, id: u64) -> bool {
    &&& s.id == id
    &&& s.from.node == last_node(nodes, e.source_node)
    &&& s.from.port@ == e.source_port@
    &&& s.to.node == last_node(nodes, e.target_node)
    &&& s.to.port@ == e.target_port@
    &&& s.origin is None
    &&& shows_connection(s.data, nodes, e)
}

/// The boxes of the icons that a wire goes around: all but the two it joins.
pub open spec fn obstacle_boxes(nodes: Seq<SceneNode>, src: u64, tgt: u64) -> Seq<Rect>
    decreases nodes.len(),
{
    if nodes.len() == 0 {
        Seq::empty()
    } else {
        let rest = obstacle_boxes(nodes.drop_last(), src, tgt);
        let n = nodes.last();
        if n.id != src && n.id != tgt && n.data is Icon {
            rest.push(match n.visual_rect {
                Some(v) => v,
                None => n.rect,
            })
        } else {
            rest
        }
    }
}

pub open spec fn is_outward(v: (i32, i32), d: PortDir) -> bool {
    v.0 == crate::geometry::outward_spec(d).0 && v.1 == crate::geometry::outward_spec(d).1
}

/// Whether `r` is what is still asked of the wire router for the connection
/// `e`: a route between the two ports, where both are known and no bends were
/// authored.
pub open spec fn is_route_of(
    r: Option<RouteRequest>,
    scene_nodes: Seq<SceneNode>,
    nodes: Seq<DiagramNode>,
    e: DiagramEdge,
    edge: SceneEdge,
) -> bool {
    let src = port_of(nodes, e.source_node, e.source_port@);
    let tgt = port_of(nodes, e.target_node, e.target_port@);
    if e.waypoints@.len() > 0 || src is None || tgt is None {
        r is None
    } else {
        r matches Some(q) && {
            &&& q.from == src->0.world
            &&& q.to == tgt->0.world
            &&& is_outward(q.from_out, dir_of(src))
            &&& is_outward(q.to_out, dir_of(tgt))
            &&& q.obstacles@ == obstacle_boxes(scene_nodes, edge.from.node, edge.to.node)
            &&& q.grid == ratio_spec(4, 1)
            &&& q.bend_penalty == ratio_spec(80, 1)
            &&& q.clearance == ratio_spec(2, 1)
        }
    }
}

fn find_port(ports: &Vec<PortDef>, name: &str) -> (r: Option<usize>)
    ensures
        match r {
            Some(i) => i < ports@.len() && port_named(ports@, name@) == Some(ports@[i as int]),
            None => port_named(ports@, name@) is None,
        },
{
    match first_port_named(ports, name) {
        Some(i) => Some(i),
        None => {
            let head = text_before_first(name, '.');
            first_port_named(ports, head.as_str())
        },
    }
}

fn first_port_named(ports: &Vec<PortDef>, name: &str) -> (r: Option<usize>)
    ensures
        match r {
            Some(i) => i == first_port(ports@, name@, 0) && i < ports@.len(),
            None => first_port(ports@, name@, 0) == ports@.len(),
        },
{
    let mut i: usize = 0;
    while i < ports.len()
        invariant
            i <= ports@.len(),
            first_port(ports@, name@, 0) == first_port(ports@, name@, i as int),
        decreases ports@.len() - i,
    {
        if same_text(ports[i].name.as_str(), name) {
            return Some(i);
        }
        i += 1;
    }
    None
}

/// The places of the component `id` and of its port `name`.
fn locate_port(diagram: &VisualDiagram, id: u64, name: &str) -> (r: Option<(usize, usize)>)
    ensures
        match r {
            Some((n, p)) => {
                &&& n < diagram.nodes@.len()
                &&& node_of(diagram.nodes@, id) == Some(diagram.nodes@[n as int])
                &&& p < diagram.nodes@[n as int].component_def.ports@.len()
                &&& port_of(diagram.nodes@, id, name@) == Some(
                    diagram.nodes@[n as int].component_def.ports@[p as int],
                )
            },
            None => port_of(diagram.nodes@, id, name@) is None,
        },
{
    match diagram.find_first(id) {
        Some(n) => match find_port(&diagram.nodes[n].component_def.ports, name) {
            Some(p) => Some((n, p)),
            None => None,
        },
        None => None,
    }
}

fn path_of_port(diagram: &VisualDiagram, id: u64, port: &str) -> (r: String)
    ensures
        r@ == port_path(diagram.nodes@, id, port@),
{
    match diagram.find_first(id) {
        Some(n) => text3(diagram.nodes[n].instance_name.as_str(), ".", port),
        None => String::new(),
    }
}

fn bends_of(points: &Vec<ModelicaPos>) -> (r: Vec<Pos>)
    ensures
        r@ == authored_bends(points@),
{
    let mut out: Vec<Pos> = Vec::new();
    let mut i: usize = 0;
    while i < points.len()
        invariant
            i <= points@.len(),
            out@ == authored_bends(points@.take(i as int)),
        decreases points@.len() - i,
    {
        out.push(modelica_to_canvas(points[i]));
        assert(points@.take(i + 1) =~= points@.take(i as int).push(points@[i as int]));
        assert(authored_bends(points@.take(i + 1)) =~= authored_bends(points@.take(i as int)).push(
            to_canvas(points@[i as int]),
        ));
        i += 1;
    }
    assert(points@.take(i as int) =~= points@);
    out
}

fn obstacles_around(nodes: &Vec<SceneNode>, src: u64, tgt: u64) -> (r: Vec<Rect>)
    ensures
        r@ == obstacle_boxes(nodes@, src, tgt),
{
    let mut out: Vec<Rect> = Vec::new();
    let mut i: usize = 0;
    while i < nodes.len()
        invariant
            i <= nodes@.len(),
            out@ == obstacle_boxes(nodes@.take(i as int), src, tgt),
        decreases nodes@.len() - i,
    {
        let n = &nodes[i];
        assert(nodes@.take(i + 1).drop_last() =~= nodes@.take(i as int));
        assert(nodes@.take(i + 1).last() == nodes@[i as int]);
        let is_icon = match &n.data {
            NodeData::Icon(_) => true,
            _ => false,
        };
        if n.id != src && n.id != tgt && is_icon {
            let b = match n.visual_rect {
                Some(v) => v,
                None => n.rect,
            };
            out.push(b);
        }
        i += 1;
    }
    assert(nodes@.take(i as int) =~= nodes@);
    out
}

/// The direction in which a wire leaves a port.
fn port_dir(diagram: &VisualDiagram, at: Option<(usize, usize)>) -> (r: PortDir)
    requires
        at matches Some((n, p)) ==> n < diagram.nodes@.len() && p
            < diagram.nodes@[n as int].component_def.ports@.len(),
    ensures
        r == dir_of(
            match at {
                Some((n, p)) => Some(diagram.nodes@[n as int].component_def.ports@[p as int]),
                None => None,
            },
        ),
{
    match at {
        Some((n, p)) => {
            let d = diagram.nodes[n].component_def.ports[p].dir;
            port_edge_dir(d.x, d.y)
        },
        None => PortDir::Inside,
    }
}

fn project_edge(
    diagram: &VisualDiagram,
    e: &DiagramEdge,
    scene_nodes: &Vec<SceneNode>,
    id: u64,
    src_node: usize,
    tgt_node: usize,
) -> (r: (SceneEdge, Option<RouteRequest>))
    requires
        src_node == last_node(diagram.nodes@, e.source_node),
        tgt_node == last_node(diagram.nodes@, e.target_node),
    ensures
        is_edge_of(r.0, diagram.nodes@, *e, id),
        is_route_of(r.1, scene_nodes@, diagram.nodes@, *e, r.0),
{
    let src = locate_port(diagram, e.source_node, e.source_port.as_str());
    let tgt = locate_port(diagram, e.target_node, e.target_port.as_str());
    let from_dir = port_dir(diagram, src);
    let to_dir = port_dir(diagram, tgt);
    let mut connector_type = String::new();
    let mut kind = PortKind::Acausal;
    let mut flow_vars: Vec<FlowVarMeta> = Vec::new();
    let mut icon_color = None;
    if let Some((n, p)) = tgt {
        icon_color = diagram.nodes[n].component_def.ports[p].color;
    }
    if let Some((n, p)) = src {
        let def = &diagram.nodes[n].component_def.ports[p];
        connector_type = def.connector_type.clone();
        kind = def.kind;
        flow_vars = copy_flow_vars(&def.flow_vars);
        if def.color.is_some() {
            icon_color = def.color;
        }
    }
    let s = src_node as u64;
    let t = tgt_node as u64;
    let route = if e.waypoints.len() > 0 {
        None
    } else {
        match (src, tgt) {
            (Some((sn, sp)), Some((tn, tp))) => Some(
                RouteRequest {
                    from: diagram.nodes[sn].component_def.ports[sp].world,
                    from_out: from_dir.outward(),
                    to: diagram.nodes[tn].component_def.ports[tp].world,
                    to_out: to_dir.outward(),
                    obstacles: obstacles_around(scene_nodes, s, t),
                    grid: Fixed::whole(4),
                    bend_penalty: Fixed::whole(80),
                    clearance: Fixed::whole(2),
                },
            ),
            _ => None,
        }
    };
    let data = ConnectionEdgeData {
        connector_type,
        from_dir,
        to_dir,
        waypoints_world: bends_of(&e.waypoints),
        icon_color,
        source_path: path_of_port(diagram, e.source_node, e.source_port.as_str()),
        target_path: path_of_port(diagram, e.target_node, e.target_port.as_str()),
        kind,
        flow_vars,
    };
    assert(shows_connection(data, diagram.nodes@, *e));
    (
        SceneEdge {
            id,
            from: PortRef { node: s, port: e.source_port.clone() },
            to: PortRef { node: t, port: e.target_port.clone() },
            data,
            origin: None,
        },
        route,
    )
}

// ── The scene ────────────────────────────────────────────────────────────

/// Whether `s` shows `d`: one icon node for each component, in order, and one
/// edge for each connection of which both ends are known, in order.
pub open spec fn shows_diagram(s: Scene, d: VisualDiagram) -> bool {
    let kept = joined_edges(d, d.edges@.len() as int);
    &&& s.nodes@.len() == d.nodes@.len()
    &&& forall|i: int|
        0 <= i < s.nodes@.len() ==> is_node_of(#[trigger] s.nodes@[i], d.nodes@[i], i as u64)
    &&& s.edges@.len() == kept.len()
    &&& forall|k: int|
        0 <= k < kept.len() ==> is_edge_of(
            #[trigger] s.edges@[k],
            d.nodes@,
            d.edges@[kept[k]],
            k as u64,
        )
    &&& s.next_node == s.nodes@.len()
    &&& s.next_edge == s.edges@.len()
}

/// The scene that shows `diagram`, the scene's id of each component, and for
/// each edge what is still asked of the wire router.
pub fn project_scene(diagram: &VisualDiagram) -> (r: Projection)
    ensures
        r.scene.wf(),
        shows_diagram(r.scene, *diagram),
        r.ids@.len() == diagram.nodes@.len(),
        forall|i: int|
            0 <= i < r.ids@.len() ==> #[trigger] r.ids@[i] == (diagram.nodes@[i].id, i as u64),
        r.routes@.len() == r.scene.edges@.len(),
        forall|k: int|
            0 <= k < r.routes@.len() ==> is_route_of(
                #[trigger] r.routes@[k],
                r.scene.nodes@,
                diagram.nodes@,
                diagram.edges@[joined_edges(*diagram, diagram.edges@.len() as int)[k]],
                r.scene.edges@[k],
            ),
{
    let mut nodes: Vec<SceneNode> = Vec::new();
    let mut ids: Vec<(u64, u64)> = Vec::new();
    let mut i: usize = 0;
    while i < diagram.nodes.len()
        invariant
            i <= diagram.nodes@.len(),
            nodes@.len() == i,
            ids@.len() == i,
            forall|j: int|
                0 <= j < i ==> is_node_of(#[trigger] nodes@[j], diagram.nodes@[j], j as u64),
            forall|j: int| 0 <= j < i ==> #[trigger] ids@[j] == (diagram.nodes@[j].id, j as u64),
        decreases diagram.nodes@.len() - i,
    {
        nodes.push(project_node(&diagram.nodes[i], i as u64));
        ids.push((diagram.nodes[i].id, i as u64));
        i += 1;
    }
    let next_node: u64 = nodes.len() as u64;
    let mut edges: Vec<SceneEdge> = Vec::new();
    let mut routes: Vec<Option<RouteRequest>> = Vec::new();
    let mut k: usize = 0;
    while k < diagram.edges.len()
        invariant
            k <= diagram.edges@.len(),
            edges@.len() == routes@.len() == joined_edges(*diagram, k as int).len(),
            edges@.len() <= k,
            forall|j: int|
                0 <= j < edges@.len() ==> is_edge_of(
                    #[trigger] edges@[j],
                    diagram.nodes@,
                    diagram.edges@[joined_edges(*diagram, k as int)[j]],
                    j as u64,
                ),
            forall|j: int|
                0 <= j < routes@.len() ==> is_route_of(
                    #[trigger] routes@[j],
                    nodes@,
                    diagram.nodes@,
                    diagram.edges@[joined_edges(*diagram, k as int)[j]],
                    edges@[j],
                ),
        decreases diagram.edges@.len() - k,
    {
        let e = &diagram.edges[k];
        let ghost before = joined_edges(*diagram, k as int);
        if let Some(s) = diagram.find_last(e.source_node) {
            if let Some(t) = diagram.find_last(e.target_node) {
                let (edge, route) = project_edge(diagram, e, &nodes, edges.len() as u64, s, t);
                edges.push(edge);
                routes.push(route);
                assert(joined_edges(*diagram, k + 1) == before.push(k as int));
            }
        }
        k += 1;
    }
    let next_edge: u64 = edges.len() as u64;
    Projection { scene: Scene { nodes, edges, next_node, next_edge }, ids, routes }
}

/// The bends between the two ends of a route.
pub open spec fn inner_points(route: Seq<Pos>) -> Seq<Pos> {
    if route.len() >= 2 {
        route.subrange(1, route.len() - 1)
    } else {
        Seq::empty()
    }
}

/// Gives the edge at place `k` the bends of the route that was found for it.
pub fn set_route(scene: &mut Scene, k: usize, route: &Vec<Pos>)
    requires
        k < old(scene).edges@.len(),
    ensures
        old(scene).wf() ==> final(scene).wf(),
        final(scene).nodes == old(scene).nodes,
        final(scene).next_node == old(scene).next_node,
        final(scene).next_edge == old(scene).next_edge,
        final(scene).edges@.len() == old(scene).edges@.len(),
        forall|j: int|
            0 <= j < old(scene).edges@.len() && j != k ==> #[trigger] final(scene).edges@[j] == old(
                scene,
            ).edges@[j],
        final(scene).edges@[k as int].id == old(scene).edges@[k as int].id,
        final(scene).edges@[k as int].from == old(scene).edges@[k as int].from,
        final(scene).edges@[k as int].to == old(scene).edges@[k as int].to,
        final(scene).edges@[k as int].origin == old(scene).edges@[k as int].origin,
        final(scene).edges@[k as int].data == (ConnectionEdgeData {
            waypoints_world: final(scene).edges@[k as int].data.waypoints_world,
            ..old(scene).edges@[k as int].data
        }),
        final(scene).edges@[k as int].data.waypoints_world@ == inner_points(route@),
{
    let mut bends: Vec<Pos> = Vec::new();
    let n: usize = route.len();
    if n >= 2 {
        let mut i: usize = 1;
        while i < n - 1
            invariant
                1 <= i <= n - 1,
                n == route@.len(),
                bends@ == route@.subrange(1, i as int),
            decreases n - i,
        {
            bends.push(route[i]);
            assert(route@.subrange(1, i + 1) =~= route@.subrange(1, i as int).push(
                route@[i as int],
            ));
            i += 1;
        }
    }
    scene.edges[k].data.waypoints_world = bends;
}

// ── Laws ─────────────────────────────────────────────────────────────────

proof fn lemma_joined_edges(d: VisualDiagram, upto: int)
    requires
        0 <= upto <= d.edges@.len(),
    ensures
        forall|k: int|
            0 <= k < joined_edges(d, upto).len() ==> 0 <= #[trigger] joined_edges(d, upto)[k] < upto
                && is_joined(d.nodes@, d.edges@[joined_edges(d, upto)[k]]),
        forall|a: int, b: int|
            0 <= a < b < joined_edges(d, upto).len() ==> #[trigger] joined_edges(d, upto)[a]
                < #[trigger] joined_edges(d, upto)[b],
        forall|i: int|
            0 <= i < upto && is_joined(d.nodes@, #[trigger] d.edges@[i]) ==> joined_edges(
                d,
                upto,
            ).contains(i),
    decreases upto,
{
    if upto > 0 {
        lemma_joined_edges(d, upto - 1);
        let before = joined_edges(d, upto - 1);
        let after = joined_edges(d, upto);
        assert forall|i: int| 0 <= i < upto && is_joined(
            d.nodes@,
            #[trigger] d.edges@[i],
        ) implies after.contains(i) by {
            if i < upto - 1 {
                let k = choose|k: int| 0 <= k < before.len() && before[k] == i;
                assert(after[k] == i);
            } else {
                assert(after[before.len() as int] == i);
            }
        }
    }
}

/// Every edge of the scene joins two nodes of the scene.
pub proof fn law_edges_join_nodes_of_the_scene(s: Scene, d: VisualDiagram, k: int)
    requires
        s.wf(),
        shows_diagram(s, d),
        0 <= k < s.edges@.len(),
    ensures
        s.node_spec(s.edges@[k].from.node) is Some,
        s.node_spec(s.edges@[k].to.node) is Some,
{
    let kept = joined_edges(d, d.edges@.len() as int);
    lemma_joined_edges(d, d.edges@.len() as int);
    let e = d.edges@[kept[k]];
    assert(is_edge_of(s.edges@[k], d.nodes@, e, k as u64));
    lemma_last_node(d.nodes@, e.source_node);
    lemma_last_node(d.nodes@, e.target_node);
    let from = last_node(d.nodes@, e.source_node);
    let to = last_node(d.nodes@, e.target_node);
    assert(is_node_of(s.nodes@[from], d.nodes@[from], from as u64));
    assert(is_node_of(s.nodes@[to], d.nodes@[to], to as u64));
    assert(s.nodes@[from].id == s.edges@[k].from.node);
    assert(s.nodes@[to].id == s.edges@[k].to.node);
}

/// A connection is shown, by one edge, exactly where both of its ends are
/// components of the diagram.
pub proof fn law_each_connection_is_shown_once(s: Scene, d: VisualDiagram, i: int)
    requires
        shows_diagram(s, d),
        0 <= i < d.edges@.len(),
    ensures
        ({
            let kept = joined_edges(d, d.edges@.len() as int);
            &&& is_joined(d.nodes@, d.edges@[i]) <==> kept.contains(i)
            &&& kept.no_duplicates()
            &&& s.edges@.len() == kept.len()
        }),
{
    lemma_joined_edges(d, d.edges@.len() as int);
    let kept = joined_edges(d, d.edges@.len() as int);
    if kept.contains(i) {
        let k = choose|k: int| 0 <= k < kept.len() && kept[k] == i;
        assert(is_joined(d.nodes@, d.edges@[kept[k]]));
    }
}

/// Whether a frame and the icon in it lie between the bounds of [`Fixed`].
pub open spec fn frame_fits(frame: Rect) -> bool {
    &&& frame.min.in_bounds()
    &&& frame.max.in_bounds()
    &&& -MAX_STEPS <= frame.max.x.steps - frame.min.x.steps <= MAX_STEPS
    &&& -MAX_STEPS <= frame.max.y.steps - frame.min.y.steps <= MAX_STEPS
    &&& frame.min.x.steps + 4 * UNIT <= MAX_STEPS
    &&& frame.min.y.steps + 4 * UNIT <= MAX_STEPS
}

/// An icon fills the frame of its component: its corner is the frame's, and on
/// each axis on which the frame is four units long or longer the opposite side
/// is the frame's too. On an axis on which it is shorter the icon is four units
/// long. The axes do not influence each other.
pub proof fn law_icon_fills_its_frame(s: Scene, d: VisualDiagram, i: int)
    requires
        shows_diagram(s, d),
        0 <= i < d.nodes@.len(),
        frame_fits(d.nodes@[i].frame),
    ensures
        ({
            let frame = d.nodes@[i].frame;
            let r = s.nodes@[i].rect;
            &&& r.min == frame.min
            &&& frame.max.x.steps - frame.min.x.steps >= 4 * UNIT ==> r.max.x == frame.max.x
            &&& frame.max.y.steps - frame.min.y.steps >= 4 * UNIT ==> r.max.y == frame.max.y
            &&& frame.max.x.steps - frame.min.x.steps < 4 * UNIT ==> r.max.x.steps
                == frame.min.x.steps + 4 * UNIT
            &&& frame.max.y.steps - frame.min.y.steps < 4 * UNIT ==> r.max.y.steps
                == frame.min.y.steps + 4 * UNIT
        }),
{
    assert(is_node_of(s.nodes@[i], d.nodes@[i], i as u64));
    crate::fixed::law_ratios_of_whole_numbers(4, 1);
}

/// An icon has the ports of its class, in order, under their names and kinds. A
/// port with a placement lies where the instance puts it. One without lies on
/// the left edge of the icon or on the right one, by turns, between top and
/// bottom, the first two half-way down.
pub proof fn law_ports_lie_where_they_are_placed(s: Scene, d: VisualDiagram, i: int, k: int)
    requires
        shows_diagram(s, d),
        0 <= i < d.nodes@.len(),
        frame_fits(d.nodes@[i].frame),
        0 <= k < d.nodes@[i].component_def.ports@.len(),
    ensures
        s.nodes@[i].ports@.len() == d.nodes@[i].component_def.ports@.len(),
        ({
            let n = s.nodes@[i];
            let p = d.nodes@[i].component_def.ports@[k];
            let at = n.ports@[k].local_offset;
            let w = n.rect.max.x.steps - n.rect.min.x.steps;
            let h = n.rect.max.y.steps - n.rect.min.y.steps;
            &&& n.ports@[k].id@ == p.name@
            &&& n.ports@[k].kind == p.kind
            &&& (p.at.x.steps != 0 || p.at.y.steps != 0) && -MAX_STEPS <= p.world.x.steps
                - n.rect.min.x.steps <= MAX_STEPS && -MAX_STEPS <= p.world.y.steps
                - n.rect.min.y.steps <= MAX_STEPS ==> n.rect.min.x.steps + at.x.steps
                == p.world.x.steps && n.rect.min.y.steps + at.y.steps == p.world.y.steps
            &&& p.at.x.steps == 0 && p.at.y.steps == 0 ==> {
                &&& k % 2 == 0 ==> at.x.steps == 0
                &&& k % 2 == 1 ==> at.x.steps == w
                &&& 0 <= at.y.steps <= h
                &&& k < 2 ==> -1 <= 2 * at.y.steps - h <= 1
            }
        }),
{
    let n = s.nodes@[i];
    let c = d.nodes@[i];
    assert(is_node_of(n, c, i as u64));
    assert(is_port_of(n.ports@[k], c.component_def.ports@[k], k, c.frame));
    crate::fixed::law_ratios_of_whole_numbers(4, 1);
    law_icon_fills_its_frame(s, d, i);
    let (w, h) = icon_size(c.frame);
    assert(w.steps == n.rect.max.x.steps - n.rect.min.x.steps);
    assert(h.steps == n.rect.max.y.steps - n.rect.min.y.steps);
    crate::geometry::law_ports_without_placement(k as nat, w, h);
}

/// An icon node shows what its component is: the class, the instance, how it is
/// turned and mirrored, and the graphics; those of the diagram annotation for
/// connectors alone. It stands for the instance in the source, and cannot be
/// resized.
pub proof fn law_icon_shows_its_component(s: Scene, d: VisualDiagram, i: int)
    requires
        shows_diagram(s, d),
        0 <= i < d.nodes@.len(),
    ensures
        s.nodes@.len() == d.nodes@.len(),
        ({
            let n = s.nodes@[i];
            let c = d.nodes@[i];
            let def = c.component_def;
            &&& n.label@ == c.instance_name@
            &&& n.origin is Some && n.origin->0@ == c.instance_name@
            &&& !n.resizable
            &&& n.visual_rect == c.visual
            &&& n.data is Icon
            &&& n.data->Icon_0.qualified_type@ == def.msl_path@
            &&& n.data->Icon_0.instance_name@ == c.instance_name@
            &&& n.data->Icon_0.icon_only == def.is_icon_only
            &&& n.data->Icon_0.expandable_connector == def.is_expandable_connector
            &&& n.data->Icon_0.icon_graphics == def.icon_graphics
            &&& def.class_kind@ == "connector"@ ==> n.data->Icon_0.diagram_graphics
                == def.diagram_graphics
            &&& def.class_kind@ != "connector"@ ==> n.data->Icon_0.diagram_graphics is None
            &&& n.data->Icon_0.rotation_deg == c.rotation_deg
            &&& n.data->Icon_0.mirror_x == c.mirror_x
            &&& n.data->Icon_0.mirror_y == c.mirror_y
            &&& n.data->Icon_0.is_conditional == c.is_conditional
            &&& n.data->Icon_0.port_connector_paths@.len() == def.ports@.len()
            &&& n.data->Icon_0.parameters@.len() == def.parameters@.len()
        }),
{
    assert(is_node_of(s.nodes@[i], d.nodes@[i], i as u64));
}

/// Each port's connector keeps its name, class, size and turn.
pub proof fn law_connectors_are_those_of_the_ports(s: Scene, d: VisualDiagram, i: int, k: int)
    requires
        shows_diagram(s, d),
        0 <= i < d.nodes@.len(),
        0 <= k < d.nodes@[i].component_def.ports@.len(),
    ensures
        ({
            let c = s.nodes@[i].data->Icon_0.port_connector_paths@[k];
            let p = d.nodes@[i].component_def.ports@[k];
            &&& c.port@ == p.name@
            &&& c.path@ == p.msl_path@
            &&& c.size_x == p.size_x
            &&& c.size_y == p.size_y
            &&& c.rotation_deg == p.rotation_deg
        }),
{
    assert(is_node_of(s.nodes@[i], d.nodes@[i], i as u64));
    let data = s.nodes@[i].data->Icon_0;
    assert(is_connector_of(data.port_connector_paths@[k], d.nodes@[i].component_def.ports@[k]));
}

proof fn lemma_modified_value(values: Seq<(String, String)>, name: Seq<char>, from: int, j: int)
    requires
        0 <= from <= j <= values.len(),
        j < values.len() ==> values[j].0@ == name,
        forall|m: int| from <= m < j ==> (#[trigger] values[m]).0@ != name,
    ensures
        modified_value(values, name, from) == (if j < values.len() {
            Some(values[j].1@)
        } else {
            None
        }),
    decreases j - from,
{
    if from < j {
        assert(values[from].0@ != name);
        lemma_modified_value(values, name, from + 1, j);
    }
}

/// A parameter is shown under its name. Its value starts with the one that the
/// instance's first modification of it gives, or with the default of the class
/// where there is no such modification or it is empty. Behind it stands at most
/// a blank and a unit, and nothing where the value is empty.
pub proof fn law_parameters_show_their_values(s: Scene, d: VisualDiagram, i: int, k: int, j: int)
    requires
        shows_diagram(s, d),
        0 <= i < d.nodes@.len(),
        0 <= k < d.nodes@[i].component_def.parameters@.len(),
        0 <= j <= d.nodes@[i].parameter_values@.len(),
        j < d.nodes@[i].parameter_values@.len() ==> d.nodes@[i].parameter_values@[j].0@
            == d.nodes@[i].component_def.parameters@[k].name@,
        forall|m: int|
            0 <= m < j ==> (#[trigger] d.nodes@[i].parameter_values@[m]).0@
                != d.nodes@[i].component_def.parameters@[k].name@,
    ensures
        ({
            let p = d.nodes@[i].component_def.parameters@[k];
            let values = d.nodes@[i].parameter_values@;
            let shown = s.nodes@[i].data->Icon_0.parameters@[k];
            let v = if j < values.len() && values[j].1@.len() > 0 {
                values[j].1@
            } else {
                p.default@
            };
            &&& shown.0@ == p.name@
            &&& v.is_prefix_of(shown.1@)
            &&& v.len() == 0 ==> shown.1@.len() == 0
            &&& shown.1@ != v ==> shown.1@.len() > v.len() + 1 && shown.1@[v.len() as int] == ' '
                && unit_of_quantity(leaf(p.param_type@)) == Some(shown.1@.skip((v.len() + 1) as int))
            &&& unit_of_quantity(leaf(p.param_type@)) is Some && v.len() > 0 ==> shown.1@ != v
        }),
{
    let c = d.nodes@[i];
    let p = c.component_def.parameters@[k];
    assert(is_node_of(s.nodes@[i], c, i as u64));
    let data = s.nodes@[i].data->Icon_0;
    assert(is_parameter_of(data.parameters@[k], p, c.parameter_values@));
    lemma_modified_value(c.parameter_values@, p.name@, 0, j);
    let shown = data.parameters@[k].1@;
    let v = if j < c.parameter_values@.len() && c.parameter_values@[j].1@.len() > 0 {
        c.parameter_values@[j].1@
    } else {
        p.default@
    };
    reveal_strlit(" ");
    let unit = unit_of_quantity(leaf(p.param_type@));
    if unit is Some && v.len() > 0 {
        assert(shown == v + " "@ + unit->0);
        assert(shown.subrange(0, v.len() as int) =~= v);
        assert(shown.skip((v.len() + 1) as int) =~= unit->0);
        crate::units::law_units_are_not_empty(leaf(p.param_type@));
    } else {
        assert(shown.subrange(0, v.len() as int) =~= v);
    }
}

/// The edges of the scene are the connections of which both ends are components
/// of the diagram, each once and in the same order: there are places `kept`,
/// increasing, one for each edge, such that every connection with two known ends
/// is among them and each edge has the ends of its connection. The node at each
/// end stands for the component of that id, and the port's name is the
/// connection's.
pub proof fn law_edges_are_the_connections(s: Scene, d: VisualDiagram) -> (kept: Seq<int>)
    requires
        shows_diagram(s, d),
    ensures
        kept.len() == s.edges@.len(),
        forall|a: int, b: int| 0 <= a < b < kept.len() ==> kept[a] < kept[b],
        forall|i: int, a: int, b: int|
            0 <= i < d.edges@.len() && 0 <= a < d.nodes@.len() && 0 <= b < d.nodes@.len() && (
            #[trigger] d.nodes@[a]).id == (#[trigger] d.edges@[i]).source_node && (
            #[trigger] d.nodes@[b]).id == d.edges@[i].target_node ==> kept.contains(i),
        forall|k: int|
            0 <= k < kept.len() ==> {
                let e = d.edges@[#[trigger] kept[k]];
                let g = s.edges@[k];
                &&& 0 <= kept[k] < d.edges@.len()
                &&& g.from.node < d.nodes@.len()
                &&& d.nodes@[g.from.node as int].id == e.source_node
                &&& g.from.port@ == e.source_port@
                &&& g.to.node < d.nodes@.len()
                &&& d.nodes@[g.to.node as int].id == e.target_node
                &&& g.to.port@ == e.target_port@
                &&& s.nodes@[g.from.node as int].id == g.from.node
                &&& s.nodes@[g.to.node as int].id == g.to.node
            },
{
    let kept = joined_edges(d, d.edges@.len() as int);
    lemma_joined_edges(d, d.edges@.len() as int);
    assert forall|i: int, a: int, b: int|
        0 <= i < d.edges@.len() && 0 <= a < d.nodes@.len() && 0 <= b < d.nodes@.len() && (
        #[trigger] d.nodes@[a]).id == (#[trigger] d.edges@[i]).source_node && (
        #[trigger] d.nodes@[b]).id == d.edges@[i].target_node implies kept.contains(i) by {
        lemma_last_node(d.nodes@, d.edges@[i].source_node);
        lemma_last_node(d.nodes@, d.edges@[i].target_node);
        assert(is_joined(d.nodes@, d.edges@[i]));
    }
    assert forall|k: int| 0 <= k < kept.len() implies {
        let e = d.edges@[#[trigger] kept[k]];
        let g = s.edges@[k];
        &&& 0 <= kept[k] < d.edges@.len()
        &&& g.from.node < d.nodes@.len()
        &&& d.nodes@[g.from.node as int].id == e.source_node
        &&& g.from.port@ == e.source_port@
        &&& g.to.node < d.nodes@.len()
        &&& d.nodes@[g.to.node as int].id == e.target_node
        &&& g.to.port@ == e.target_port@
        &&& s.nodes@[g.from.node as int].id == g.from.node
        &&& s.nodes@[g.to.node as int].id == g.to.node
    } by {
        let e = d.edges@[kept[k]];
        assert(is_edge_of(s.edges@[k], d.nodes@, e, k as u64));
        lemma_last_node(d.nodes@, e.source_node);
        lemma_last_node(d.nodes@, e.target_node);
        let from = last_node(d.nodes@, e.source_node);
        let to = last_node(d.nodes@, e.target_node);
        assert(is_node_of(s.nodes@[from], d.nodes@[from], from as u64));
        assert(is_node_of(s.nodes@[to], d.nodes@[to], to as u64));
    }
    kept
}

proof fn lemma_first_port(ports: Seq<PortDef>, name: Seq<char>, from: int, j: int)
    requires
        0 <= from <= j < ports.len(),
        ports[j].name@ == name,
        forall|m: int| from <= m < j ==> (#[trigger] ports[m]).name@ != name,
    ensures
        first_port(ports, name, from) == j,
    decreases j - from,
{
    if from < j {
        assert(ports[from].name@ != name);
        lemma_first_port(ports, name, from + 1, j);
    }
}

proof fn lemma_no_port(ports: Seq<PortDef>, name: Seq<char>, from: int)
    requires
        0 <= from <= ports.len(),
        forall|m: int| 0 <= m < ports.len() ==> (#[trigger] ports[m]).name@ != name,
    ensures
        first_port(ports, name, from) == ports.len(),
    decreases ports.len() - from,
{
    if from < ports.len() {
        assert(ports[from].name@ != name);
        lemma_no_port(ports, name, from + 1);
    }
}

/// Whether `p` is the first port of that name.
pub open spec fn is_first_named(ports: Seq<PortDef>, name: Seq<char>, p: int) -> bool {
    &&& 0 <= p < ports.len()
    &&& ports[p].name@ == name
    &&& forall|m: int| 0 <= m < p ==> (#[trigger] ports[m]).name@ != name
}

/// Whether the name is one inside a connector: `head`, which has no dot, then a
/// dot.
pub open spec fn is_inside(name: Seq<char>, head: Seq<char>) -> bool {
    &&& name.len() > head.len()
    &&& name.take(head.len() as int) == head
    &&& name[head.len() as int] == '.'
    &&& !head.contains('.')
}

/// Whether `p` is the port of the component at place `a`, the first of its id,
/// that the name stands for: the first port of that name or, where none has it,
/// the first whose name comes before the first dot.
pub open spec fn is_named_port(
    nodes: Seq<DiagramNode>,
    id: u64,
    a: int,
    name: Seq<char>,
    p: int,
) -> bool {
    &&& 0 <= a < nodes.len()
    &&& nodes[a].id == id
    &&& forall|m: int| 0 <= m < a ==> (#[trigger] nodes[m]).id != id
    &&& {
        let ports = nodes[a].component_def.ports@;
        ||| is_first_named(ports, name, p)
        ||| {
            &&& forall|m: int| 0 <= m < ports.len() ==> (#[trigger] ports[m]).name@ != name
            &&& is_first_named(ports, ports[p].name@, p)
            &&& is_inside(name, ports[p].name@)
        }
    }
}

proof fn lemma_named_port(
    nodes: Seq<DiagramNode>,
    id: u64,
    a: int,
    name: Seq<char>,
    p: int,
)
    requires
        is_named_port(nodes, id, a, name, p),
    ensures
        node_of(nodes, id) == Some(nodes[a]),
        0 <= p < nodes[a].component_def.ports@.len(),
        port_of(nodes, id, name) == Some(nodes[a].component_def.ports@[p]),
{
    crate::model::lemma_first_node(nodes, id, 0);
    let ports = nodes[a].component_def.ports@;
    if is_first_named(ports, name, p) {
        lemma_first_port(ports, name, 0, p);
    } else {
        let head = ports[p].name@;
        lemma_no_port(ports, name, 0);
        assert forall|j: int| 0 <= j < head.len() implies name[j] != '.' by {
            assert(name.take(head.len() as int)[j] == head[j]);
            assert(head.contains(head[j]));
        }
        crate::text::lemma_first_index_unique(name, '.', 0, head.len() as int);
        lemma_first_port(ports, head, 0, p);
    }
}

/// A wire looks like what it joins. Its connector class, its kind and its flow
/// variables are those of the first port; its colour is that of the first port's
/// icon, or of the second's where the first has none. It leaves each port along
/// the axis that the port points at, by the larger part of its direction. A
/// simulation knows its ends by the names of instance and port.
pub proof fn law_wire_looks_like_its_ports(
    data: ConnectionEdgeData,
    nodes: Seq<DiagramNode>,
    e: DiagramEdge,
    a: int,
    p: int,
    b: int,
    q: int,
)
    requires
        shows_connection(data, nodes, e),
        is_named_port(nodes, e.source_node, a, e.source_port@, p),
        is_named_port(nodes, e.target_node, b, e.target_port@, q),
    ensures
        ({
            let src = nodes[a].component_def.ports@[p];
            let tgt = nodes[b].component_def.ports@[q];
            &&& data.connector_type@ == src.connector_type@
            &&& data.kind == src.kind
            &&& data.flow_vars@ == src.flow_vars@
            &&& src.color is Some ==> data.icon_color == src.color
            &&& src.color is None ==> data.icon_color == tgt.color
            &&& data.source_path@ == nodes[a].instance_name@ + "."@ + e.source_port@
            &&& data.target_path@ == nodes[b].instance_name@ + "."@ + e.target_port@
            &&& data.from_dir == edge_dir(src.dir.x, src.dir.y)
            &&& data.to_dir == edge_dir(tgt.dir.x, tgt.dir.y)
        }),
{
    lemma_named_port(nodes, e.source_node, a, e.source_port@, p);
    lemma_named_port(nodes, e.target_node, b, e.target_port@, q);
}

/// The bends that the source gives a wire are kept, in order: each has the
/// source's x, and its y with the opposite sign.
pub proof fn law_authored_bends_are_mirrored(
    data: ConnectionEdgeData,
    nodes: Seq<DiagramNode>,
    e: DiagramEdge,
    k: int,
)
    requires
        shows_connection(data, nodes, e),
        0 <= k < e.waypoints@.len(),
        e.waypoints@[k].y.in_bounds(),
    ensures
        data.waypoints_world@.len() == e.waypoints@.len(),
        data.waypoints_world@[k].x == e.waypoints@[k].x,
        data.waypoints_world@[k].y.steps == -e.waypoints@[k].y.steps,
{
}

proof fn lemma_obstacles(nodes: Seq<SceneNode>, src: u64, tgt: u64)
    ensures
        forall|i: int|
            0 <= i < nodes.len() && (#[trigger] nodes[i]).id != src && nodes[i].id != tgt
                && nodes[i].data is Icon ==> obstacle_boxes(nodes, src, tgt).contains(
                match nodes[i].visual_rect {
                    Some(v) => v,
                    None => nodes[i].rect,
                },
            ),
        forall|k: int|
            0 <= k < obstacle_boxes(nodes, src, tgt).len() ==> exists|i: int|
                {
                    &&& 0 <= i < nodes.len()
                    &&& (#[trigger] nodes[i]).id != src
                    &&& nodes[i].id != tgt
                    &&& nodes[i].data is Icon
                    &&& #[trigger] obstacle_boxes(nodes, src, tgt)[k] == (
                    match nodes[i].visual_rect {
                        Some(v) => v,
                        None => nodes[i].rect,
                    })
                },
    decreases nodes.len(),
{
    if nodes.len() > 0 {
        let rest = nodes.drop_last();
        lemma_obstacles(rest, src, tgt);
        let before = obstacle_boxes(rest, src, tgt);
        let all = obstacle_boxes(nodes, src, tgt);
        assert forall|i: int|
            0 <= i < nodes.len() && (#[trigger] nodes[i]).id != src && nodes[i].id != tgt
                && nodes[i].data is Icon implies all.contains(
            match nodes[i].visual_rect {
                Some(v) => v,
                None => nodes[i].rect,
            },
        ) by {
            let v = match nodes[i].visual_rect {
                Some(v) => v,
                None => nodes[i].rect,
            };
            if i < rest.len() {
                assert(rest[i] == nodes[i]);
                let k = choose|k: int| 0 <= k < before.len() && before[k] == v;
                assert(all[k] == v);
            } else {
                assert(all[before.len() as int] == v);
            }
        }
        assert forall|k: int| 0 <= k < all.len() implies exists|i: int|
            {
                &&& 0 <= i < nodes.len()
                &&& (#[trigger] nodes[i]).id != src
                &&& nodes[i].id != tgt
                &&& nodes[i].data is Icon
                &&& #[trigger] all[k] == (match nodes[i].visual_rect {
                    Some(v) => v,
                    None => nodes[i].rect,
                })
            } by {
            if k < before.len() {
                assert(all[k] == before[k]);
                let i = choose|i: int|
                    {
                        &&& 0 <= i < rest.len()
                        &&& (#[trigger] rest[i]).id != src
                        &&& rest[i].id != tgt
                        &&& rest[i].data is Icon
                        &&& #[trigger] before[k] == (match rest[i].visual_rect {
                            Some(v) => v,
                            None => rest[i].rect,
                        })
                    };
                assert(nodes[i] == rest[i]);
            } else {
                assert(nodes[nodes.len() - 1] == nodes.last());
            }
        }
    }
}

/// A route is asked for exactly where both ports are known and the source gives
/// no bends. It runs from the one port to the other and around every icon but
/// the two that it joins, by the box of its graphics where that is known, and
/// around nothing else.
pub proof fn law_routes_go_around_the_other_icons(
    r: Option<RouteRequest>,
    scene_nodes: Seq<SceneNode>,
    nodes: Seq<DiagramNode>,
    e: DiagramEdge,
    edge: SceneEdge,
    a: int,
    p: int,
    b: int,
    q: int,
)
    requires
        is_route_of(r, scene_nodes, nodes, e, edge),
        is_named_port(nodes, e.source_node, a, e.source_port@, p),
        is_named_port(nodes, e.target_node, b, e.target_port@, q),
    ensures
        r is Some <==> e.waypoints@.len() == 0,
        r is Some ==> {
            &&& r->0.from == nodes[a].component_def.ports@[p].world
            &&& r->0.to == nodes[b].component_def.ports@[q].world
            &&& forall|i: int|
                0 <= i < scene_nodes.len() && (#[trigger] scene_nodes[i]).id != edge.from.node
                    && scene_nodes[i].id != edge.to.node && scene_nodes[i].data is Icon
                    ==> r->0.obstacles@.contains(
                    match scene_nodes[i].visual_rect {
                        Some(v) => v,
                        None => scene_nodes[i].rect,
                    },
                )
            &&& forall|k: int|
                0 <= k < r->0.obstacles@.len() ==> exists|i: int|
                    {
                        &&& 0 <= i < scene_nodes.len()
                        &&& (#[trigger] scene_nodes[i]).id != edge.from.node
                        &&& scene_nodes[i].id != edge.to.node
                        &&& scene_nodes[i].data is Icon
                        &&& #[trigger] r->0.obstacles@[k] == (match scene_nodes[i].visual_rect {
                            Some(v) => v,
                            None => scene_nodes[i].rect,
                        })
                    }
        },
{
    lemma_named_port(nodes, e.source_node, a, e.source_port@, p);
    lemma_named_port(nodes, e.target_node, b, e.target_port@, q);
    lemma_obstacles(scene_nodes, edge.from.node, edge.to.node);
}

/// The bends of a route are its points without the first and the last, which are
/// the ports; a route of fewer than three points has none.
pub proof fn law_routes_lose_their_ends(route: Seq<Pos>, i: int)
    ensures
        route.len() < 3 ==> inner_points(route).len() == 0,
        route.len() >= 2 ==> inner_points(route).len() == route.len() - 2,
        0 <= i < inner_points(route).len() ==> inner_points(route)[i] == route[i + 1],
{
}

/// A route leaves each of its two ports outwards, along the axis that the port
/// points at; the y axis points down. The router works on a grid of four units,
/// counts a bend like eighty units of wire, and keeps two units away from icons.
pub proof fn law_routes_leave_their_ports_outwards(
    r: Option<RouteRequest>,
    scene_nodes: Seq<SceneNode>,
    nodes: Seq<DiagramNode>,
    e: DiagramEdge,
    edge: SceneEdge,
    a: int,
    p: int,
    b: int,
    q: int,
)
    requires
        is_route_of(r, scene_nodes, nodes, e, edge),
        is_named_port(nodes, e.source_node, a, e.source_port@, p),
        is_named_port(nodes, e.target_node, b, e.target_port@, q),
        r is Some,
    ensures
        points_along(r->0.from_out, nodes[a].component_def.ports@[p].dir),
        points_along(r->0.to_out, nodes[b].component_def.ports@[q].dir),
        r->0.grid.steps == 4 * UNIT,
        r->0.bend_penalty.steps == 80 * UNIT,
        r->0.clearance.steps == 2 * UNIT,
{
    lemma_named_port(nodes, e.source_node, a, e.source_port@, p);
    lemma_named_port(nodes, e.target_node, b, e.target_port@, q);
}

/// Whether `v` is the unit step along the larger part of `dir`, towards its sign,
/// and no step where both parts are smaller than two fifths.
pub open spec fn points_along(v: (i32, i32), dir: Pos) -> bool {
    let x = dir.x.abs_spec().steps;
    let y = dir.y.abs_spec().steps;
    &&& 5 * x + 5 <= 2 * UNIT && 5 * y + 5 <= 2 * UNIT ==> v == (0i32, 0i32)
    &&& 5 * x >= 2 * UNIT && x >= y ==> v.1 == 0 && (if dir.x.steps >= 0 {
        v.0 == 1
    } else {
        v.0 == -1
    })
    &&& 5 * y >= 2 * UNIT && y > x ==> v.0 == 0 && (if dir.y.steps >= 0 {
        v.1 == 1
    } else {
        v.1 == -1
    })
}

} // verus!
