//! What a wire shows: its colour and width, its path, the flow along it, and
//! the text that appears when the pointer hovers over it.
use crate::color::{brighten, connector_color, lifted, opaque, wire_color_for, Rgba};
use crate::fixed::{ratio_spec, Fixed, UNIT};
use crate::geometry::{hovers, route_orthogonal, wire, wire_hovered, PortDir, Pos};
use crate::model::{copy_flow_vars, FlowVarMeta, PortKind};
use crate::scene::ConnectionEdgeData;
use crate::text::{ends_with, leaf, leaf_of, text2, text3, views};
use vstd::prelude::*;
use vstd::string::StringExecFns;

verus! {

// ── Wires from edges ─────────────────────────────────────────────────────

/// A wire as it is drawn.
#[derive(Debug, PartialEq, Eq)]
pub struct OrthogonalEdgeVisual {
    pub color: Rgba,
    pub from_dir: PortDir,
    pub to_dir: PortDir,
    pub waypoints_world: Vec<Pos>,
    /// Whether the wire carries a signal from an output to an input.
    pub is_causal: bool,
    pub source_path: String,
    pub target_path: String,
    pub kind: PortKind,
    pub flow_vars: Vec<FlowVarMeta>,
    pub connector_leaf: String,
}

/// Whether a wire carries a signal: its port is an input or an output, or its
/// connector class is named like one.
pub open spec fn carries_signal(kind: PortKind, connector_leaf: Seq<char>) -> bool {
    kind == PortKind::Input || kind == PortKind::Output || "Input"@.is_suffix_of(connector_leaf)
        || "Output"@.is_suffix_of(connector_leaf)
}

/// Whether `v` draws the edge `d`. The line colour of the connector's own icon
/// wins over that of its class name.
pub open spec fn draws_edge(v: OrthogonalEdgeVisual, d: ConnectionEdgeData) -> bool {
    let c = match d.icon_color {
        Some(c) => c,
        None => connector_color(leaf(d.connector_type@)),
    };
    &&& v.color == (Rgba { r: c.r, g: c.g, b: c.b, a: 255 })
    &&& v.from_dir == d.from_dir
    &&& v.to_dir == d.to_dir
    &&& v.waypoints_world@ == d.waypoints_world@
    &&& v.is_causal == carries_signal(d.kind, leaf(d.connector_type@))
    &&& v.source_path == d.source_path
    &&& v.target_path == d.target_path
    &&& v.kind == d.kind
    &&& v.flow_vars@ == d.flow_vars@
    &&& v.connector_leaf@ == leaf(d.connector_type@)
}

fn copy_points(v: &Vec<Pos>) -> (r: Vec<Pos>)
    ensures
        r@ == v@,
{
    let mut out: Vec<Pos> = Vec::new();
    let mut i: usize = 0;
    while i < v.len()
        invariant
            i <= v@.len(),
            out@ == v@.take(i as int),
        decreases v@.len() - i,
    {
        out.push(v[i]);
        assert(v@.take(i + 1) =~= v@.take(i as int).push(v@[i as int]));
        i += 1;
    }
    assert(v@.take(i as int) =~= v@);
    out
}

impl OrthogonalEdgeVisual {
    /// The wire that draws an edge.
    pub fn from_data(d: &ConnectionEdgeData) -> (r: OrthogonalEdgeVisual)
        ensures
            draws_edge(r, *d),
    {
        let connector_leaf = leaf_of(d.connector_type.as_str());
        let by_name = ends_with(connector_leaf.as_str(), "Input") || ends_with(
            connector_leaf.as_str(),
            "Output",
        );
        let is_causal = d.kind == PortKind::Input || d.kind == PortKind::Output || by_name;
        let color = match d.icon_color {
            Some(c) => opaque(c),
            None => opaque(wire_color_for(d.connector_type.as_str())),
        };
        OrthogonalEdgeVisual {
            color,
            from_dir: d.from_dir,
            to_dir: d.to_dir,
            waypoints_world: copy_points(&d.waypoints_world),
            is_causal,
            source_path: d.source_path.clone(),
            target_path: d.target_path.clone(),
            kind: d.kind,
            flow_vars: copy_flow_vars(&d.flow_vars),
            connector_leaf,
        }
    }
}

impl Default for OrthogonalEdgeVisual {
    /// The wire of an edge that says nothing of itself: black and acausal.
    fn default() -> (r: OrthogonalEdgeVisual)
        ensures
            r.color == (Rgba { r: 0, g: 0, b: 0, a: 255 }),
            r.from_dir == PortDir::Inside,
            r.to_dir == PortDir::Inside,
            r.waypoints_world@.len() == 0,
            !r.is_causal,
            r.source_path@.len() == 0,
            r.target_path@.len() == 0,
            r.kind == PortKind::Acausal,
            r.flow_vars@.len() == 0,
            r.connector_leaf@.len() == 0,
    {
        OrthogonalEdgeVisual {
            color: Rgba { r: 0, g: 0, b: 0, a: 255 },
            from_dir: PortDir::Inside,
            to_dir: PortDir::Inside,
            waypoints_world: Vec::new(),
            is_causal: false,
            source_path: String::new(),
            target_path: String::new(),
            kind: PortKind::Acausal,
            flow_vars: Vec::new(),
            connector_leaf: String::new(),
        }
    }
}

/// The short name of a kind of port.
pub open spec fn port_kind_name(kind: PortKind) -> Seq<char> {
    match kind {
        PortKind::Input => "input"@,
        PortKind::Output => "output"@,
        PortKind::Acausal => "acausal"@,
    }
}

/// The short name of a kind of port.
pub fn port_kind_str(kind: PortKind) -> (r: &'static str)
    ensures
        r@ == port_kind_name(kind),
{
    match kind {
        PortKind::Input => "input",
        PortKind::Output => "output",
        PortKind::Acausal => "acausal",
    }
}

// ── Strokes ──────────────────────────────────────────────────────────────

/// The colour of a wire that the theme shows as `themed`: lighter where it is
/// selected.
pub fn stroke_color(themed: Rgba, selected: bool) -> (r: Rgba)
    ensures
        r == (if selected {
            Rgba { r: lifted(themed.r), g: lifted(themed.g), b: lifted(themed.b), a: 255 }
        } else {
            themed
        }),
{
    if selected {
        brighten(themed)
    } else {
        themed
    }
}

/// The width of a wire at normal zoom: signals are drawn thicker than
/// physical wires, selected wires thicker than others.
pub open spec fn stroke_width_spec(is_causal: bool, selected: bool) -> Fixed {
    if selected {
        if is_causal {
            ratio_spec(22, 10)
        } else {
            ratio_spec(17, 10)
        }
    } else if is_causal {
        ratio_spec(16, 10)
    } else {
        ratio_spec(11, 10)
    }
}

/// The width of a wire at normal zoom.
pub fn stroke_width(is_causal: bool, selected: bool) -> (r: Fixed)
    ensures
        r == stroke_width_spec(is_causal, selected),
{
    if selected {
        if is_causal {
            Fixed::ratio(22, 10)
        } else {
            Fixed::ratio(17, 10)
        }
    } else if is_causal {
        Fixed::ratio(16, 10)
    } else {
        Fixed::ratio(11, 10)
    }
}

// ── Paths ────────────────────────────────────────────────────────────────

/// Whether a bend lies off both axes of a port: the port has moved since the
/// bends were made.
pub open spec fn is_off_axis(bend: Pos, port: Pos) -> bool {
    bend.x.minus_spec(port.x).abs_spec().steps > UNIT && bend.y.minus_spec(port.y).abs_spec().steps
        > UNIT
}

/// Whether the bends still fit the ports: there are some, and the first and
/// the last lie on an axis of their port.
pub open spec fn bends_fit(from: Pos, to: Pos, bends: Seq<Pos>) -> bool {
    bends.len() > 0 && !is_off_axis(bends[0], from) && !is_off_axis(bends.last(), to)
}

/// The path of a wire: along its bends where they still fit, else routed anew.
pub open spec fn wire_path_spec(
    from: Pos,
    from_dir: PortDir,
    to: Pos,
    to_dir: PortDir,
    bends: Seq<Pos>,
    stub: Fixed,
) -> Seq<Pos> {
    if bends_fit(from, to, bends) {
        seq![from] + bends + seq![to]
    } else {
        wire(from, from_dir, to, to_dir, stub)
    }
}

/// A wire's path, and whether it runs along the bends that it was given.
#[derive(Debug, PartialEq, Eq)]
pub struct WirePath {
    pub points: Vec<Pos>,
    pub along_bends: bool,
}

fn off_axis(bend: Pos, port: Pos) -> (r: bool)
    ensures
        r == is_off_axis(bend, port),
{
    bend.x.minus(port.x).abs().steps > UNIT && bend.y.minus(port.y).abs().steps > UNIT
}

/// The path of a wire on the screen: along its bends where they still fit its
/// ports, else routed anew. While a node is dragged its port leaves the bends,
/// and the wire follows the port.
pub fn wire_path(
    from: Pos,
    from_dir: PortDir,
    to: Pos,
    to_dir: PortDir,
    bends: &Vec<Pos>,
    stub: Fixed,
) -> (r: WirePath)
    ensures
        r.points@ == wire_path_spec(from, from_dir, to, to_dir, bends@, stub),
        r.along_bends == bends_fit(from, to, bends@),
{
    if bends.len() > 0 && !off_axis(bends[0], from) && !off_axis(bends[bends.len() - 1], to) {
        let mut points: Vec<Pos> = Vec::new();
        points.push(from);
        let mut rest = copy_points(bends);
        points.append(&mut rest);
        points.push(to);
        assert(points@ =~= seq![from] + bends@ + seq![to]);
        WirePath { points, along_bends: true }
    } else {
        WirePath {
            points: route_orthogonal(from, from_dir, to, to_dir, stub),
            along_bends: false,
        }
    }
}

// ── Flow ─────────────────────────────────────────────────────────────────

/// Which way a sampled quantity points. Quantities of a millionth or less
/// stand still.
#[derive(Clone, Copy, Debug, PartialEq, Eq, Structural)]
pub enum Flow {
    Still,
    Positive,
    Negative,
}

/// Which way the dots along a wire run.
#[derive(Clone, Copy, Debug, PartialEq, Eq, Structural)]
pub enum FlowDots {
    Forward,
    Backward,
}

/// The names under which the flow of a wire is sampled: at its source port,
/// and at its target port. The first flow variable of the connector counts; a
/// signal, whose connector has none, has no flow.
pub open spec fn flow_keys_spec(v: OrthogonalEdgeVisual) -> Option<(Seq<char>, Seq<char>)> {
    if v.flow_vars@.len() > 0 {
        let name = v.flow_vars@[0].name@;
        Some((v.source_path@ + "."@ + name, v.target_path@ + "."@ + name))
    } else {
        None
    }
}

/// The names under which the flow of a wire is sampled.
pub fn flow_keys(v: &OrthogonalEdgeVisual) -> (r: Option<(String, String)>)
    ensures
        match r {
            Some((source, target)) => flow_keys_spec(*v) == Some((source@, target@)),
            None => flow_keys_spec(*v) is None,
        },
{
    if v.flow_vars.len() > 0 {
        let name = v.flow_vars[0].name.as_str();
        Some((text3(v.source_path.as_str(), ".", name), text3(v.target_path.as_str(), ".", name)))
    } else {
        None
    }
}

/// The dots along a wire. A flow variable is positive where something enters
/// the component through the port, so a positive flow at the source port runs
/// backward along the wire; the target port counts where the source port was
/// not sampled. A signal, which has no flow variable, never has dots.
pub open spec fn flow_dots_spec(has_flow_vars: bool, source: Option<Flow>, target: Option<Flow>) -> Option<
    FlowDots,
> {
    if has_flow_vars {
        match source {
            Some(Flow::Positive) => Some(FlowDots::Backward),
            Some(Flow::Negative) => Some(FlowDots::Forward),
            Some(Flow::Still) => None,
            None => match target {
                Some(Flow::Positive) => Some(FlowDots::Forward),
                Some(Flow::Negative) => Some(FlowDots::Backward),
                _ => None,
            },
        }
    } else {
        None
    }
}

/// The dots along a wire, from the samples at its two ports.
pub fn flow_dots(v: &OrthogonalEdgeVisual, source: Option<Flow>, target: Option<Flow>) -> (r: Option<
    FlowDots,
>)
    ensures
        r == flow_dots_spec(v.flow_vars@.len() > 0, source, target),
{
    if v.flow_vars.len() == 0 {
        return None;
    }
    match source {
        Some(f) => match f {
            Flow::Positive => Some(FlowDots::Backward),
            Flow::Negative => Some(FlowDots::Forward),
            Flow::Still => None,
        },
        None => match target {
            Some(f) => match f {
                Flow::Positive => Some(FlowDots::Forward),
                Flow::Negative => Some(FlowDots::Backward),
                Flow::Still => None,
            },
            None => None,
        },
    }
}

/// The points of a wire in the order in which its dots run.
pub open spec fn dot_order(points: Seq<Pos>, dots: FlowDots) -> Seq<Pos> {
    match dots {
        FlowDots::Forward => points,
        FlowDots::Backward => points.reverse(),
    }
}

/// The points of a wire in the order in which its dots run.
pub fn dotted_path(points: &Vec<Pos>, dots: FlowDots) -> (r: Vec<Pos>)
    ensures
        r@ == dot_order(points@, dots),
{
    match dots {
        FlowDots::Forward => copy_points(points),
        FlowDots::Backward => {
            let mut out: Vec<Pos> = Vec::new();
            let mut i: usize = points.len();
            while i > 0
                invariant
                    i <= points@.len(),
                    out@.len() == points@.len() - i,
                    forall|j: int|
                        0 <= j < out@.len() ==> #[trigger] out@[j] == points@[points@.len() - 1
                            - j],
                decreases i,
            {
                i -= 1;
                out.push(points[i]);
            }
            assert(out@ =~= points@.reverse());
            out
        },
    }
}

/// How far apart the dots along a wire are, in steps of a pixel.
pub const DOT_SPACING: i64 = 0x10_0000_0000;

/// How many pixels a dot runs in a second.
pub const DOT_SPEED: i64 = 36;

/// The radius of a dot at normal zoom.
pub fn dot_radius() -> (r: Fixed)
    ensures
        r == ratio_spec(26, 10),
{
    Fixed::ratio(26, 10)
}

/// A dot along a wire: the segment that it lies on, and how far along it.
#[derive(Clone, Copy, Debug, PartialEq, Eq, Structural)]
pub struct FlowMark {
    pub segment: usize,
    pub along: Fixed,
}

/// How long the first `n` segments of a wire are together.
pub open spec fn length_before(lengths: Seq<Fixed>, n: int) -> int
    decreases n,
{
    if n <= 0 {
        0
    } else {
        length_before(lengths, n - 1) + lengths[n - 1].steps
    }
}

/// How far the first dot is from the start of its wire at a time. It is the
/// same for every wire, so that all dots keep step.
pub open spec fn dot_phase(time: Fixed) -> int {
    (time.steps * DOT_SPEED) % (DOT_SPACING as int)
}

/// Whether a dot lies `s` steps from the start of a wire: on the first segment
/// that reaches so far.
pub open spec fn lies_at(m: FlowMark, lengths: Seq<Fixed>, s: int) -> bool {
    &&& m.segment < lengths.len()
    &&& s <= length_before(lengths, m.segment + 1)
    &&& m.segment > 0 ==> length_before(lengths, m.segment as int) < s
    &&& m.along.steps == s - length_before(lengths, m.segment as int)
}

/// Whether `marks` are the dots along a wire at a time: one at the phase of
/// the time and one at each spacing beyond it, up to the end of the wire. A
/// wire shorter than a pixel has none.
pub open spec fn are_flow_marks(marks: Seq<FlowMark>, lengths: Seq<Fixed>, time: Fixed) -> bool {
    let total = length_before(lengths, lengths.len() as int);
    if total < UNIT {
        marks.len() == 0
    } else {
        &&& forall|k: int|
            0 <= k < marks.len() ==> dot_phase(time) + k * DOT_SPACING < total && lies_at(
                #[trigger] marks[k],
                lengths,
                dot_phase(time) + k * DOT_SPACING,
            )
        &&& dot_phase(time) + marks.len() * DOT_SPACING >= total
    }
}

fn phase_of(time: Fixed) -> (r: i128)
    ensures
        r == dot_phase(time),
        0 <= r < DOT_SPACING,
{
    let run: i128 = time.steps as i128 * 36;
    let spacing: i128 = DOT_SPACING as i128;
    if run >= 0 {
        run % spacing
    } else {
        let back: i128 = (-run) % spacing;
        if back == 0 {
            0
        } else {
            spacing - back
        }
    }
}

fn mark_at(lengths: &Vec<Fixed>, s: i128) -> (r: FlowMark)
    requires
        forall|i: int| 0 <= i < lengths@.len() ==> (#[trigger] lengths@[i]).steps >= 0,
        0 <= s < length_before(lengths@, lengths@.len() as int),
    ensures
        lies_at(r, lengths@, s as int),
{
    let mut before: i128 = 0;
    let mut i: usize = 0;
    loop
        invariant
            forall|j: int| 0 <= j < lengths@.len() ==> (#[trigger] lengths@[j]).steps >= 0,
            0 <= s < length_before(lengths@, lengths@.len() as int),
            i <= lengths@.len(),
            before == length_before(lengths@, i as int),
            0 <= before <= i * 0x7fff_ffff_ffff_ffff,
            i > 0 ==> before < s,
        decreases lengths@.len() - i,
    {
        if i == lengths.len() {
            // The whole wire is longer than `s`.
            assert(false);
        }
        let len: i64 = lengths[i].steps;
        assert(i * 0x7fff_ffff_ffff_ffff <= 0x7fff_ffff_ffff_ffff_8000_0000_0000_0001) by (
        nonlinear_arith)
            requires
                i <= 0xffff_ffff_ffff_ffff,
        ;
        if s <= before + len as i128 {
            return FlowMark { segment: i, along: Fixed { steps: (s - before) as i64 } };
        }
        before = before + len as i128;
        i += 1;
        assert(i * 0x7fff_ffff_ffff_ffff == (i - 1) * 0x7fff_ffff_ffff_ffff
            + 0x7fff_ffff_ffff_ffff) by (nonlinear_arith);
    }
}

fn total_length(lengths: &Vec<Fixed>) -> (r: i128)
    requires
        forall|i: int| 0 <= i < lengths@.len() ==> (#[trigger] lengths@[i]).steps >= 0,
    ensures
        r == length_before(lengths@, lengths@.len() as int),
        0 <= r <= 0x7fff_ffff_ffff_ffff_8000_0000_0000_0001,
{
    let mut total: i128 = 0;
    let mut i: usize = 0;
    while i < lengths.len()
        invariant
            forall|j: int| 0 <= j < lengths@.len() ==> (#[trigger] lengths@[j]).steps >= 0,
            i <= lengths@.len(),
            total == length_before(lengths@, i as int),
            0 <= total <= i * 0x7fff_ffff_ffff_ffff,
        decreases lengths@.len() - i,
    {
        assert(i * 0x7fff_ffff_ffff_ffff <= 0x7fff_ffff_ffff_ffff_8000_0000_0000_0001) by (
        nonlinear_arith)
            requires
                i <= 0xffff_ffff_ffff_ffff,
        ;
        total = total + lengths[i].steps as i128;
        i += 1;
        assert(i * 0x7fff_ffff_ffff_ffff == (i - 1) * 0x7fff_ffff_ffff_ffff
            + 0x7fff_ffff_ffff_ffff) by (nonlinear_arith);
    }
    assert(i * 0x7fff_ffff_ffff_ffff <= 0x7fff_ffff_ffff_ffff_8000_0000_0000_0001) by (
    nonlinear_arith)
        requires
            i <= 0xffff_ffff_ffff_ffff,
    ;
    total
}

/// The dots along a wire whose segments have these lengths on the screen. They
/// run from its first point to its last at a constant speed.
pub fn flow_marks(lengths: &Vec<Fixed>, time: Fixed) -> (r: Vec<FlowMark>)
    requires
        forall|i: int| 0 <= i < lengths@.len() ==> (#[trigger] lengths@[i]).steps >= 0,
    ensures
        are_flow_marks(r@, lengths@, time),
{
    let total: i128 = total_length(lengths);
    let mut out: Vec<FlowMark> = Vec::new();
    if total < UNIT as i128 {
        return out;
    }
    let mut s: i128 = phase_of(time);
    while s < total
        invariant
            forall|i: int| 0 <= i < lengths@.len() ==> (#[trigger] lengths@[i]).steps >= 0,
            total == length_before(lengths@, lengths@.len() as int),
            total <= 0x7fff_ffff_ffff_ffff_8000_0000_0000_0001,
            0 <= s < total + DOT_SPACING || out@.len() == 0,
            s >= 0,
            s == dot_phase(time) + out@.len() * DOT_SPACING,
            forall|k: int|
                0 <= k < out@.len() ==> dot_phase(time) + k * DOT_SPACING < total && lies_at(
                    #[trigger] out@[k],
                    lengths@,
                    dot_phase(time) + k * DOT_SPACING,
                ),
        decreases total + DOT_SPACING - s,
    {
        let m = mark_at(lengths, s);
        out.push(m);
        s = s + DOT_SPACING as i128;
    }
    out
}

// ── Hover text ───────────────────────────────────────────────────────────

/// The names of the values that the hover text shows: one for each flow
/// variable at the source port, or, where there is none, the two ports.
pub open spec fn hover_keys_spec(v: OrthogonalEdgeVisual) -> Seq<Seq<char>> {
    if v.flow_vars@.len() > 0 {
        v.flow_vars@.map_values(|f: FlowVarMeta| v.source_path@ + "."@ + f.name@)
    } else {
        seq![v.source_path@, v.target_path@]
    }
}

/// The names of the values that the hover text shows.
pub fn hover_keys(v: &OrthogonalEdgeVisual) -> (r: Vec<String>)
    ensures
        views(r@) == hover_keys_spec(*v),
{
    let mut out: Vec<String> = Vec::new();
    if v.flow_vars.len() == 0 {
        out.push(v.source_path.clone());
        out.push(v.target_path.clone());
        assert(views(out@) =~= hover_keys_spec(*v));
        return out;
    }
    let mut i: usize = 0;
    while i < v.flow_vars.len()
        invariant
            i <= v.flow_vars@.len(),
            out@.len() == i,
            forall|j: int|
                0 <= j < i ==> (#[trigger] out@[j])@ == v.source_path@ + "."@
                    + v.flow_vars@[j].name@,
        decreases v.flow_vars@.len() - i,
    {
        out.push(text3(v.source_path.as_str(), ".", v.flow_vars[i].name.as_str()));
        i += 1;
    }
    assert(views(out@) =~= hover_keys_spec(*v));
    out
}

/// A value as the hover text shows it.
pub open spec fn value_text(value: Option<String>) -> Seq<char> {
    match value {
        Some(s) => s@,
        None => "n/a"@,
    }
}

/// The line of the hover text for a flow variable.
pub open spec fn flow_line(f: FlowVarMeta, value: Option<String>) -> Seq<char> {
    let unit = if f.unit@.len() == 0 {
        Seq::empty()
    } else {
        " "@ + f.unit@
    };
    "\n  "@ + f.name@ + " = "@ + value_text(value) + unit
}

/// The lines of the hover text for the first `n` flow variables.
pub open spec fn flow_lines(
    vars: Seq<FlowVarMeta>,
    values: Seq<Option<String>>,
    n: int,
) -> Seq<char>
    decreases n,
{
    if n <= 0 {
        Seq::empty()
    } else {
        flow_lines(vars, values, n - 1) + flow_line(vars[n - 1], values[n - 1])
    }
}

/// The hover text of a wire: its connector class, and a line for each flow
/// variable or one for the value that it carries. `values` are the values of
/// the hover keys, with three digits, where they were sampled.
pub open spec fn hover_text(v: OrthogonalEdgeVisual, values: Seq<Option<String>>) -> Seq<char> {
    if v.flow_vars@.len() > 0 {
        v.connector_leaf@ + flow_lines(v.flow_vars@, values, v.flow_vars@.len() as int)
    } else {
        v.connector_leaf@ + ("\n  value = "@ + value_text(
            if values[0] is Some {
                values[0]
            } else {
                values[1]
            },
        ))
    }
}

fn text_of_value(value: &Option<String>) -> (r: String)
    ensures
        r@ == value_text(*value),
{
    match value {
        Some(s) => s.clone(),
        None => "n/a".to_owned(),
    }
}

fn line_of_flow(f: &FlowVarMeta, value: &Option<String>) -> (r: String)
    ensures
        r@ == flow_line(*f, *value),
{
    let unit = if f.unit.as_str().is_empty() {
        String::new()
    } else {
        text2(" ", f.unit.as_str())
    };
    let shown = text_of_value(value);
    let head = text3("\n  ", f.name.as_str(), " = ");
    text3(head.as_str(), shown.as_str(), unit.as_str())
}

/// The hover text of a wire.
pub fn edge_hover_text(v: &OrthogonalEdgeVisual, values: &Vec<Option<String>>) -> (r: String)
    requires
        values@.len() == hover_keys_spec(*v).len(),
    ensures
        r@ == hover_text(*v, values@),
{
    let mut out = v.connector_leaf.clone();
    if v.flow_vars.len() == 0 {
        let shown = if values[0].is_some() {
            text_of_value(&values[0])
        } else {
            text_of_value(&values[1])
        };
        let line = text2("\n  value = ", shown.as_str());
        out.append(line.as_str());
        return out;
    }
    let mut i: usize = 0;
    assert(v.connector_leaf@ + flow_lines(v.flow_vars@, values@, 0) =~= v.connector_leaf@);
    while i < v.flow_vars.len()
        invariant
            i <= v.flow_vars@.len(),
            values@.len() == v.flow_vars@.len(),
            out@ == v.connector_leaf@ + flow_lines(v.flow_vars@, values@, i as int),
        decreases v.flow_vars@.len() - i,
    {
        let line = line_of_flow(&v.flow_vars[i], &values[i]);
        out.append(line.as_str());
        assert(out@ =~= v.connector_leaf@ + (flow_lines(v.flow_vars@, values@, i as int) + line@));
        i += 1;
    }
    out
}

// ── Whole wires ──────────────────────────────────────────────────────────

/// How a wire is drawn.
#[derive(Debug, PartialEq, Eq)]
pub struct WireDrawing {
    pub points: Vec<Pos>,
    pub color: Rgba,
    /// The width at normal zoom.
    pub width: Fixed,
    /// The points in the order in which the dots run, where there are dots.
    pub dots: Option<Vec<Pos>>,
    /// Whether the pointer hovers over the wire, so that its text is shown.
    pub hovered: bool,
}

/// What the screen says of a wire: where its ports are, the length of its
/// stubs, the colour that the theme gives it, whether it is selected, and
/// where the pointer is.
#[derive(Clone, Copy, Debug, PartialEq, Eq, Structural)]
pub struct WireLook {
    pub from: Pos,
    pub to: Pos,
    pub stub: Fixed,
    pub themed: Rgba,
    pub selected: bool,
    pub pointer: Option<Pos>,
}

/// Whether `d` draws a wire. `bends` are its bends on the screen, and `source`
/// and `target` the samples of its flow. A wire along its bends has neither
/// dots nor a text.
pub open spec fn draws_wire(
    d: WireDrawing,
    v: OrthogonalEdgeVisual,
    look: WireLook,
    bends: Seq<Pos>,
    source: Option<Flow>,
    target: Option<Flow>,
) -> bool {
    let along_bends = bends_fit(look.from, look.to, bends);
    let dots = flow_dots_spec(v.flow_vars@.len() > 0, source, target);
    &&& d.points@ == wire_path_spec(look.from, v.from_dir, look.to, v.to_dir, bends, look.stub)
    &&& d.color == (if look.selected {
        Rgba {
            r: lifted(look.themed.r),
            g: lifted(look.themed.g),
            b: lifted(look.themed.b),
            a: 255,
        }
    } else {
        look.themed
    })
    &&& d.width == stroke_width_spec(v.is_causal, look.selected)
    &&& d.dots is Some == (!along_bends && dots is Some)
    &&& d.dots is Some ==> d.dots->0@ == dot_order(d.points@, dots->0)
    &&& d.hovered == (!along_bends && look.pointer is Some && hovers(look.pointer->0, d.points@))
}

/// How a wire is drawn.
pub fn draw_wire(
    v: &OrthogonalEdgeVisual,
    look: WireLook,
    bends: &Vec<Pos>,
    source: Option<Flow>,
    target: Option<Flow>,
) -> (r: WireDrawing)
    ensures
        draws_wire(r, *v, look, bends@, source, target),
{
    let path = wire_path(look.from, v.from_dir, look.to, v.to_dir, bends, look.stub);
    let color = stroke_color(look.themed, look.selected);
    let width = stroke_width(v.is_causal, look.selected);
    if path.along_bends {
        return WireDrawing { points: path.points, color, width, dots: None, hovered: false };
    }
    let dots = match flow_dots(v, source, target) {
        Some(d) => Some(dotted_path(&path.points, d)),
        None => None,
    };
    let hovered = match look.pointer {
        Some(p) => wire_hovered(p, &path.points),
        None => false,
    };
    WireDrawing { points: path.points, color, width, dots, hovered }
}

// ── Laws ─────────────────────────────────────────────────────────────────

/// Whichever way it is found, a wire's path starts at its first port and ends
/// at its second.
pub proof fn law_wire_path_joins_ports(
    from: Pos,
    from_dir: PortDir,
    to: Pos,
    to_dir: PortDir,
    bends: Seq<Pos>,
    stub: Fixed,
)
    ensures
        ({
            let p = wire_path_spec(from, from_dir, to, to_dir, bends, stub);
            p.len() > 0 && p[0] == from && p.last() == to
        }),
{
    crate::geometry::law_wire_joins_ports(from, from_dir, to, to_dir, stub);
}

/// Where both ports of a wire with a flow variable are sampled, and what leaves
/// the one enters the other, it does not matter which port counts.
pub proof fn law_flow_direction_agrees_at_both_ports(source: Flow, target: Flow)
    requires
        source == Flow::Positive <==> target == Flow::Negative,
        source == Flow::Negative <==> target == Flow::Positive,
    ensures
        flow_dots_spec(true, Some(source), Some(target)) == flow_dots_spec(true, None, Some(target)),
{
}

/// A signal never has dots, whatever its ports were sampled as.
pub proof fn law_signals_never_animate(
    d: WireDrawing,
    v: OrthogonalEdgeVisual,
    look: WireLook,
    bends: Seq<Pos>,
    source: Option<Flow>,
    target: Option<Flow>,
)
    requires
        v.flow_vars@.len() == 0,
        draws_wire(d, v, look, bends, source, target),
    ensures
        d.dots is None,
{
}

/// A wire keeps its bends exactly as long as the first of them is within a pixel
/// of its port on one axis or the other, and so is the last of its port: it then
/// runs from the first port over every bend in turn to the second port.
/// Otherwise it is routed anew.
pub proof fn law_wires_keep_bends_that_fit(
    from: Pos,
    from_dir: PortDir,
    to: Pos,
    to_dir: PortDir,
    bends: Seq<Pos>,
    stub: Fixed,
    i: int,
)
    requires
        from.in_bounds() && to.in_bounds(),
        bends.len() > 0,
        bends[0].in_bounds() && bends.last().in_bounds(),
        0 <= i < bends.len(),
    ensures
        ({
            let p = wire_path_spec(from, from_dir, to, to_dir, bends, stub);
            let b = bends[0];
            let e = bends.last();
            let at_start = -UNIT <= b.x.steps - from.x.steps <= UNIT || -UNIT <= b.y.steps
                - from.y.steps <= UNIT;
            let at_end = -UNIT <= e.x.steps - to.x.steps <= UNIT || -UNIT <= e.y.steps
                - to.y.steps <= UNIT;
            &&& at_start && at_end ==> p.len() == bends.len() + 2 && p[0] == from && p[i + 1]
                == bends[i] && p.last() == to
            &&& !at_start || !at_end ==> p == wire(from, from_dir, to, to_dir, stub)
        }),
        wire_path_spec(from, from_dir, to, to_dir, Seq::empty(), stub) == wire(
            from,
            from_dir,
            to,
            to_dir,
            stub,
        ),
{
}

/// A wire has the line colour of its connector's own icon, where that has one,
/// and is opaque. It is named by the last part of its connector's class, and it
/// carries a signal where its port is an input or an output.
pub proof fn law_wires_look_like_their_edge(v: OrthogonalEdgeVisual, d: ConnectionEdgeData, i: int)
    requires
        draws_edge(v, d),
        0 <= i < d.waypoints_world@.len(),
    ensures
        v.color.a == 255,
        d.icon_color matches Some(c) ==> v.color.r == c.r && v.color.g == c.g && v.color.b == c.b,
        d.icon_color is None ==> {
            let c = connector_color(leaf(d.connector_type@));
            v.color.r == c.r && v.color.g == c.g && v.color.b == c.b
        },
        d.kind == PortKind::Input || d.kind == PortKind::Output ==> v.is_causal,
        "Input"@.is_suffix_of(v.connector_leaf@) || "Output"@.is_suffix_of(v.connector_leaf@)
            ==> v.is_causal,
        v.is_causal && d.kind == PortKind::Acausal ==> "Input"@.is_suffix_of(v.connector_leaf@)
            || "Output"@.is_suffix_of(v.connector_leaf@),
        v.from_dir == d.from_dir && v.to_dir == d.to_dir,
        v.source_path@ == d.source_path@ && v.target_path@ == d.target_path@,
        v.waypoints_world@[i] == d.waypoints_world@[i],
        v.waypoints_world@.len() == d.waypoints_world@.len(),
{
}

/// A wire of a signal is half a pixel thicker than a physical one, and a selected
/// wire six tenths of a pixel thicker than one that is not.
pub proof fn law_signals_and_selected_wires_are_thicker(selected: bool, causal: bool)
    ensures
        -2 <= stroke_width_spec(true, selected).steps - stroke_width_spec(false, selected).steps
            - UNIT / 2 <= 2,
        -2 <= 5 * (stroke_width_spec(causal, true).steps - stroke_width_spec(causal, false).steps)
            - 3 * UNIT + 4 <= 12,
        -1 <= 10 * stroke_width_spec(false, false).steps - 11 * UNIT + 10 <= 11,
{
    crate::fixed::law_ratios_of_whole_numbers(22, 10);
    crate::fixed::law_ratios_of_whole_numbers(17, 10);
    crate::fixed::law_ratios_of_whole_numbers(16, 10);
    crate::fixed::law_ratios_of_whole_numbers(11, 10);
}

/// Whether a bend lies more than a pixel off a port on both axes.
pub open spec fn strays(bend: Pos, port: Pos) -> bool {
    let dx = bend.x.steps - port.x.steps;
    let dy = bend.y.steps - port.y.steps;
    (dx > UNIT || -dx > UNIT) && (dy > UNIT || -dy > UNIT)
}

/// The dots run with the flow. What enters the component at the source port comes
/// along the wire from the target, so the dots run from the target's end to the
/// source's; what leaves there runs the other way. Where only the target port is
/// sampled, what enters there runs from the source's end.
pub proof fn law_dots_run_with_the_flow(
    d: WireDrawing,
    v: OrthogonalEdgeVisual,
    look: WireLook,
    bends: Seq<Pos>,
    source: Option<Flow>,
    target: Option<Flow>,
)
    requires
        draws_wire(d, v, look, bends, source, target),
        v.flow_vars@.len() > 0,
        bends.len() == 0 || strays(bends[0], look.from) || strays(bends.last(), look.to),
    ensures
        source == Some(Flow::Negative) || (source is None && target == Some(Flow::Positive)) ==> {
            &&& d.dots is Some
            &&& d.dots->0@[0] == look.from
            &&& d.dots->0@.last() == look.to
            &&& d.dots->0@.len() == d.points@.len()
            &&& forall|i: int| 0 <= i < d.points@.len() ==> #[trigger] d.dots->0@[i] == d.points@[i]
        },
        source == Some(Flow::Positive) || (source is None && target == Some(Flow::Negative)) ==> {
            &&& d.dots is Some
            &&& d.dots->0@[0] == look.to
            &&& d.dots->0@.last() == look.from
            &&& d.dots->0@.len() == d.points@.len()
            &&& forall|i: int|
                0 <= i < d.points@.len() ==> #[trigger] d.dots->0@[i] == d.points@[d.points@.len()
                    - 1 - i]
        },
        source == Some(Flow::Still) ==> d.dots is None,
        source is None && target is None ==> d.dots is None,
        source is None && target == Some(Flow::Still) ==> d.dots is None,
{
    law_wire_path_joins_ports(look.from, v.from_dir, look.to, v.to_dir, bends, look.stub);
}

/// A wire is drawn from its first port to its second, lighter and opaque where it
/// is selected, and as the theme gives it where it is not. Only a wire without
/// fitting bends shows a text, and only where the pointer is over it.
pub proof fn law_wires_are_drawn_between_their_ports(
    d: WireDrawing,
    v: OrthogonalEdgeVisual,
    look: WireLook,
    bends: Seq<Pos>,
    source: Option<Flow>,
    target: Option<Flow>,
)
    requires
        draws_wire(d, v, look, bends, source, target),
    ensures
        d.points@.len() > 0 && d.points@[0] == look.from && d.points@.last() == look.to,
        !look.selected ==> d.color == look.themed,
        look.selected ==> {
            &&& d.color.a == 255
            &&& d.color.r >= look.themed.r && d.color.g >= look.themed.g && d.color.b
                >= look.themed.b
            &&& look.themed.r < 255 ==> d.color.r > look.themed.r
            &&& look.themed.g < 255 ==> d.color.g > look.themed.g
            &&& look.themed.b < 255 ==> d.color.b > look.themed.b
        },
        d.hovered ==> look.pointer is Some && hovers(look.pointer->0, d.points@),
        look.pointer matches Some(p) ==> ((bends.len() == 0 || strays(bends[0], look.from)
            || strays(bends.last(), look.to)) && hovers(p, d.points@) ==> d.hovered),
        bends.len() > 0 && bends[0].in_bounds() && bends.last().in_bounds()
            && look.from.in_bounds() && look.to.in_bounds() && !strays(bends[0], look.from)
            && !strays(bends.last(), look.to) ==> !d.hovered && d.dots is None,
{
    law_wire_path_joins_ports(look.from, v.from_dir, look.to, v.to_dir, bends, look.stub);
}

/// The names under which a flow is sampled are the two ports' paths with the name
/// of the first flow variable behind a dot.
pub proof fn law_flows_are_sampled_at_both_ports(v: OrthogonalEdgeVisual)
    ensures
        flow_keys_spec(v) is None <==> v.flow_vars@.len() == 0,
        flow_keys_spec(v) matches Some((s, t)) ==> {
            let name = v.flow_vars@[0].name@;
            &&& s.len() == v.source_path@.len() + 1 + name.len()
            &&& s.take(v.source_path@.len() as int) == v.source_path@
            &&& s[v.source_path@.len() as int] == '.'
            &&& s.skip(v.source_path@.len() as int + 1) == name
            &&& t.len() == v.target_path@.len() + 1 + name.len()
            &&& t.take(v.target_path@.len() as int) == v.target_path@
            &&& t[v.target_path@.len() as int] == '.'
            &&& t.skip(v.target_path@.len() as int + 1) == name
        },
{
    reveal_strlit(".");
    if v.flow_vars@.len() > 0 {
        let name = v.flow_vars@[0].name@;
        let s = v.source_path@ + "."@ + name;
        let t = v.target_path@ + "."@ + name;
        assert(s.take(v.source_path@.len() as int) =~= v.source_path@);
        assert(s.skip(v.source_path@.len() as int + 1) =~= name);
        assert(t.take(v.target_path@.len() as int) =~= v.target_path@);
        assert(t.skip(v.target_path@.len() as int + 1) =~= name);
    }
}

/// The first segments of a wire are together as long as one by one.
pub proof fn law_lengths_add_up(lengths: Seq<Fixed>, n: int)
    requires
        0 <= n < lengths.len(),
    ensures
        length_before(lengths, 0) == 0,
        length_before(lengths, n + 1) - length_before(lengths, n) == lengths[n].steps,
{
}

/// The dots along a wire lie sixteen pixels apart, the first less than sixteen
/// pixels from the start of the wire, and the last less than sixteen pixels from
/// its end; each lies on the segment that it names.
pub proof fn law_dots_are_sixteen_pixels_apart(
    marks: Seq<FlowMark>,
    lengths: Seq<Fixed>,
    time: Fixed,
    k: int,
)
    requires
        are_flow_marks(marks, lengths, time),
        0 <= k < marks.len(),
    ensures
        ({
            let m = marks[k];
            let s = length_before(lengths, m.segment as int) + m.along.steps;
            &&& m.segment < lengths.len()
            &&& m.along.steps <= lengths[m.segment as int].steps
            &&& m.along.steps >= 0
            &&& k == 0 ==> 0 <= s < 16 * UNIT
            &&& k == 0 ==> (36 * time.steps - s) % (16 * UNIT) == 0
            &&& k > 0 ==> s - (length_before(lengths, marks[k - 1].segment as int)
                + marks[k - 1].along.steps) == 16 * UNIT
            &&& k == marks.len() - 1 ==> 0 < length_before(lengths, lengths.len() as int) - s <= 16
                * UNIT
        }),
{
    let m = marks[k];
    let phase = dot_phase(time);
    assert(lies_at(m, lengths, phase + k * DOT_SPACING));
    assert(length_before(lengths, m.segment + 1) == length_before(lengths, m.segment as int)
        + lengths[m.segment as int].steps);
    let run = 36 * time.steps;
    assert(run % (16 * UNIT) == phase);
    assert((run - phase) % (16 * UNIT) == 0);
    if k > 0 {
        assert(lies_at(marks[k - 1], lengths, phase + (k - 1) * DOT_SPACING));
        assert(k * DOT_SPACING == (k - 1) * DOT_SPACING + DOT_SPACING) by (nonlinear_arith);
    }
    assert(k * DOT_SPACING >= 0) by (nonlinear_arith)
        requires
            k >= 0,
            DOT_SPACING == 0x10_0000_0000,
    ;
    assert(length_before(lengths, 0) == 0);
    if k == marks.len() - 1 {
        assert(marks.len() * DOT_SPACING == k * DOT_SPACING + DOT_SPACING) by (nonlinear_arith)
            requires
                marks.len() == k + 1,
        ;
    }
}

/// A wire of a pixel or more that reaches past the first dot's place has a dot,
/// and a shorter one none.
pub proof fn law_only_wires_under_a_pixel_lack_dots(
    marks: Seq<FlowMark>,
    lengths: Seq<Fixed>,
    time: Fixed,
)
    requires
        are_flow_marks(marks, lengths, time),
    ensures
        length_before(lengths, lengths.len() as int) < UNIT ==> marks.len() == 0,
        length_before(lengths, lengths.len() as int) >= 16 * UNIT ==> marks.len() > 0,
{
    if marks.len() == 0 {
        assert(marks.len() * DOT_SPACING == 0) by (nonlinear_arith)
            requires
                marks.len() == 0,
        ;
    }
}

/// The text of a wire shows its connector first; a wire without flow variables
/// shows the value at its source port, and that at its target port only where the
/// source was not sampled.
pub proof fn law_hover_text_starts_with_the_connector(
    v: OrthogonalEdgeVisual,
    values: Seq<Option<String>>,
)
    ensures
        hover_text(v, values).len() >= v.connector_leaf@.len(),
        hover_text(v, values).take(v.connector_leaf@.len() as int) == v.connector_leaf@,
        v.flow_vars@.len() == 0 && values.len() == 2 ==> {
            let shown = hover_text(v, values).skip(v.connector_leaf@.len() as int);
            &&& values[0] is Some ==> shown == "\n  value = "@ + values[0]->0@
            &&& values[0] is None && values[1] is Some ==> shown == "\n  value = "@ + values[1]->0@
            &&& values[0] is None && values[1] is None ==> shown == "\n  value = "@ + "n/a"@
        },
{
    let t = hover_text(v, values);
    assert(t.take(v.connector_leaf@.len() as int) =~= v.connector_leaf@);
    if v.flow_vars@.len() == 0 && values.len() == 2 {
        let line = "\n  value = "@ + value_text(
            if values[0] is Some {
                values[0]
            } else {
                values[1]
            },
        );
        assert((v.connector_leaf@ + line).skip(v.connector_leaf@.len() as int) =~= line);
    }
}

proof fn lemma_flow_lines(
    vars: Seq<FlowVarMeta>,
    values: Seq<Option<String>>,
    n: int,
    i: int,
) -> (o: int)
    requires
        0 <= i < n,
    ensures
        0 <= o,
        o + flow_line(vars[i], values[i]).len() <= flow_lines(vars, values, n).len(),
        flow_lines(vars, values, n).subrange(o, o + flow_line(vars[i], values[i]).len())
            == flow_line(vars[i], values[i]),
    decreases n,
{
    let all = flow_lines(vars, values, n);
    let before = flow_lines(vars, values, n - 1);
    let line = flow_line(vars[i], values[i]);
    if i == n - 1 {
        let o = before.len() as int;
        assert(all.subrange(o, o + line.len()) =~= line);
        o
    } else {
        let o = lemma_flow_lines(vars, values, n - 1, i);
        assert(all.subrange(o, o + line.len()) =~= before.subrange(o, o + line.len()));
        o
    }
}

/// The text of a wire with flow variables holds a line for each of them: its name,
/// its value where it was sampled, and its unit where it has one.
pub proof fn law_hover_text_shows_every_flow(
    v: OrthogonalEdgeVisual,
    values: Seq<Option<String>>,
    i: int,
) -> (o: int)
    requires
        0 <= i < v.flow_vars@.len(),
        values.len() == v.flow_vars@.len(),
    ensures
        ({
            let f = v.flow_vars@[i];
            let value = if values[i] is Some {
                values[i]->0@
            } else {
                "n/a"@
            };
            let plain = "\n  "@ + f.name@ + " = "@ + value;
            let line = if f.unit@.len() > 0 {
                plain + " "@ + f.unit@
            } else {
                plain
            };
            &&& v.connector_leaf@.len() <= o
            &&& o + line.len() <= hover_text(v, values).len()
            &&& hover_text(v, values).subrange(o, o + line.len()) == line
        }),
{
    let f = v.flow_vars@[i];
    let n = v.flow_vars@.len() as int;
    let k = lemma_flow_lines(v.flow_vars@, values, n, i);
    let line = flow_line(f, values[i]);
    let all = flow_lines(v.flow_vars@, values, n);
    let o = v.connector_leaf@.len() + k;
    assert(hover_text(v, values).subrange(o, o + line.len()) =~= all.subrange(k, k + line.len()));
    let plain = "\n  "@ + f.name@ + " = "@ + value_text(values[i]);
    assert(plain + (" "@ + f.unit@) =~= plain + " "@ + f.unit@);
    assert(plain + Seq::<char>::empty() =~= plain);
    o
}

/// The values that the text shows are those of the flow variables at the source
/// port, or of the two ports where there are none.
pub proof fn law_hover_text_reads_the_source_port(v: OrthogonalEdgeVisual, i: int)
    requires
        0 <= i < v.flow_vars@.len(),
    ensures
        hover_keys_spec(v).len() == v.flow_vars@.len(),
        hover_keys_spec(v)[i] == v.source_path@ + "."@ + v.flow_vars@[i].name@,
{
}

} // verus!
