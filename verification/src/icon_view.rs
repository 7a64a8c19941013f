//! What an icon node shows: its border, its ports, and the card that appears
//! when the pointer hovers over it.
use crate::color::{at_opacity, faded, CanvasThemeSnapshot, Rgba};
use crate::fixed::{bounded, ratio_spec, Fixed, UNIT};
use crate::geometry::{edge_dir, port_edge_dir, PortDir, Pos, Rect};
use crate::model::PortKind;
use crate::scene::{IconNodeData, PortConnector, SceneNode, ScenePort};
use crate::text::{
    before_last, contains_char, has_char, is_name_order, leaf, leaf_of, name_order, places,
    position_of, same_text, starts_with, strip_prefix, text2, text3, text_before_last, views,
    without_prefix,
};
use vstd::prelude::*;
use vstd::string::StringExecFns;

verus! {

// ── Labels ───────────────────────────────────────────────────────────────

/// The short class name of an icon node, which stands in for a missing icon
/// and for `%class` in texts.
pub fn icon_type_label(data: &IconNodeData) -> (r: String)
    ensures
        r@ == leaf(data.qualified_type@),
{
    leaf_of(data.qualified_type.as_str())
}

/// Whether the placeholder of a class without an icon shows the class name:
/// where there is a name, and room for it.
pub fn shows_type_label(label: &str, icon_height: Fixed) -> (r: bool)
    ensures
        r == (label@.len() > 0 && icon_height.steps > ratio_spec(30, 1).steps),
{
    !label.is_empty() && icon_height.steps > Fixed::whole(30).steps
}

/// What stands for the placeholders in the texts of an icon: `%name`, `%class`
/// and the names of parameters.
#[derive(Debug, PartialEq, Eq)]
pub struct IconTexts<'a> {
    pub name: Option<&'a str>,
    pub class_name: Option<String>,
    /// Names of parameters and the values that are shown for them.
    pub parameters: Option<&'a Vec<(String, String)>>,
}

/// What stands for the placeholders in the texts of an icon node: the name of
/// the instance, the short name of its class, and its parameters, each only
/// where there is one.
pub fn icon_texts(data: &IconNodeData) -> (r: IconTexts<'_>)
    ensures
        match r.name {
            Some(n) => data.instance_name@.len() > 0 && n@ == data.instance_name@,
            None => data.instance_name@.len() == 0,
        },
        match r.class_name {
            Some(c) => leaf(data.qualified_type@).len() > 0 && c@ == leaf(data.qualified_type@),
            None => leaf(data.qualified_type@).len() == 0,
        },
        match r.parameters {
            Some(p) => data.parameters@.len() > 0 && p@ == data.parameters@,
            None => data.parameters@.len() == 0,
        },
{
    let class_name = icon_type_label(data);
    IconTexts {
        name: if data.instance_name.as_str().is_empty() {
            None
        } else {
            Some(data.instance_name.as_str())
        },
        class_name: if class_name.as_str().is_empty() {
            None
        } else {
            Some(class_name)
        },
        parameters: if data.parameters.is_empty() {
            None
        } else {
            Some(&data.parameters)
        },
    }
}

// ── Borders ──────────────────────────────────────────────────────────────

/// A border around a node.
#[derive(Clone, Copy, Debug, PartialEq, Eq, Structural)]
pub struct Border {
    pub width: Fixed,
    pub color: Rgba,
    pub dashed: bool,
}

/// What decides on a node's border.
#[derive(Clone, Copy, Debug, PartialEq, Eq, Structural)]
pub struct BorderFacts {
    pub selected: bool,
    pub icon_only: bool,
    pub expandable_connector: bool,
    /// Whether the class has an icon of its own.
    pub drew_icon: bool,
}

/// The opacity of a hairline: a third, at least forty.
pub open spec fn hairline_opacity(a: u8) -> u8 {
    if a / 3 < 40 {
        40
    } else {
        a / 3
    }
}

/// The border of a node: the selection ring before all others, then the dashed
/// borders of decorative classes and of expandable connectors, the outline of
/// a placeholder, and a hairline around an icon where the theme asks for it.
pub open spec fn border_of(f: BorderFacts, t: CanvasThemeSnapshot) -> Option<Border> {
    if f.selected {
        Some(Border { width: ratio_spec(2, 1), color: t.select_stroke, dashed: false })
    } else if f.icon_only {
        Some(Border { width: ratio_spec(1, 1), color: t.icon_only_stroke, dashed: true })
    } else if f.expandable_connector {
        Some(Border { width: ratio_spec(3, 2), color: t.select_stroke, dashed: true })
    } else if !f.drew_icon {
        Some(Border { width: ratio_spec(1, 1), color: t.inactive_stroke, dashed: false })
    } else if t.show_authored_icon_border {
        let c = t.inactive_stroke;
        Some(
            Border {
                width: ratio_spec(3, 4),
                color: faded(c.r, c.g, c.b, hairline_opacity(c.a)),
                dashed: false,
            },
        )
    } else {
        None
    }
}

/// The border of a node.
pub fn node_border(f: &BorderFacts, t: &CanvasThemeSnapshot) -> (r: Option<Border>)
    ensures
        r == border_of(*f, *t),
{
    if f.selected {
        Some(Border { width: Fixed::whole(2), color: t.select_stroke, dashed: false })
    } else if f.icon_only {
        Some(Border { width: Fixed::whole(1), color: t.icon_only_stroke, dashed: true })
    } else if f.expandable_connector {
        Some(Border { width: Fixed::ratio(3, 2), color: t.select_stroke, dashed: true })
    } else if !f.drew_icon {
        Some(Border { width: Fixed::whole(1), color: t.inactive_stroke, dashed: false })
    } else if t.show_authored_icon_border {
        let c = t.inactive_stroke;
        let a: u8 = if c.a / 3 < 40 {
            40
        } else {
            c.a / 3
        };
        Some(Border { width: Fixed::ratio(3, 4), color: at_opacity(c, a), dashed: false })
    } else {
        None
    }
}

// ── Values ───────────────────────────────────────────────────────────────

/// The place among the sampled variables of a name as an icon's texts write
/// it: in the scope of the instance first, else as a name of its own.
pub open spec fn is_resolved(
    r: Option<int>,
    keys: Seq<Seq<char>>,
    instance: Seq<char>,
    name: Seq<char>,
) -> bool {
    let scoped = instance + "."@ + name;
    match r {
        Some(i) => 0 <= i < keys.len() && (if instance.len() > 0 && keys.contains(scoped) {
            keys[i] == scoped
        } else {
            keys[i] == name
        }),
        None => !keys.contains(name) && (instance.len() > 0 ==> !keys.contains(scoped)),
    }
}

fn find_key(keys: &Vec<String>, key: &str) -> (r: Option<usize>)
    ensures
        match r {
            Some(i) => i < keys@.len() && views(keys@)[i as int] == key@ && views(keys@).contains(
                key@,
            ),
            None => !views(keys@).contains(key@),
        },
{
    let r = position_of(keys, key);
    proof {
        if r is Some {
            assert(views(keys@)[r->0 as int] == key@);
        } else if views(keys@).contains(key@) {
            let k = choose|k: int| 0 <= k < views(keys@).len() && views(keys@)[k] == key@;
            assert(keys@[k]@ == key@);
        }
    }
    r
}

/// The place among the sampled variables of a name as an icon's texts write
/// it.
pub fn resolve_value(keys: &Vec<String>, instance: &str, name: &str) -> (r: Option<usize>)
    ensures
        is_resolved(
            match r {
                Some(i) => Some(i as int),
                None => None,
            },
            views(keys@),
            instance@,
            name@,
        ),
{
    if !instance.is_empty() {
        let scoped = text3(instance, ".", name);
        if let Some(i) = find_key(keys, scoped.as_str()) {
            return Some(i);
        }
    }
    find_key(keys, name)
}

// ── Ports ────────────────────────────────────────────────────────────────

/// How a port without an icon is drawn.
#[derive(Clone, Copy, Debug, PartialEq, Eq, Structural)]
pub enum PortShape {
    InputSquare,
    OutputTriangle,
    AcausalCircle,
}

/// How a port without an icon is drawn: inputs as squares, outputs as
/// triangles, any other as circles.
pub open spec fn shape_of(kind: PortKind) -> PortShape {
    match kind {
        PortKind::Input => PortShape::InputSquare,
        PortKind::Output => PortShape::OutputTriangle,
        PortKind::Acausal => PortShape::AcausalCircle,
    }
}

/// How a port without an icon is drawn.
pub fn port_shape(kind: PortKind) -> (r: PortShape)
    ensures
        r == shape_of(kind),
{
    match kind {
        PortKind::Input => PortShape::InputSquare,
        PortKind::Output => PortShape::OutputTriangle,
        PortKind::Acausal => PortShape::AcausalCircle,
    }
}

/// What is drawn for a port without an icon: a square, a triangle by its
/// corners, or a circle by its middle and radius.
#[derive(Clone, Copy, Debug, PartialEq, Eq, Structural)]
pub enum PortMarker {
    Square(Rect),
    Triangle(Pos, Pos, Pos),
    Circle(Pos, Fixed),
}

/// A point at `along` times the outward axis of a port from `center`, and
/// `across` times the axis to its side.
pub open spec fn beside(
    center: Pos,
    dir: PortDir,
    along: Fixed,
    across: Fixed,
) -> Pos {
    match dir {
        PortDir::Right => Pos { x: center.x.plus_spec(along), y: center.y.plus_spec(across) },
        PortDir::Left => Pos { x: center.x.minus_spec(along), y: center.y.minus_spec(across) },
        PortDir::Down => Pos { x: center.x.minus_spec(across), y: center.y.plus_spec(along) },
        PortDir::Up => Pos { x: center.x.plus_spec(across), y: center.y.minus_spec(along) },
        PortDir::Inside => center,
    }
}

fn beside_point(center: Pos, dir: PortDir, along: Fixed, across: Fixed) -> (r: Pos)
    ensures
        r == beside(center, dir, along, across),
{
    match dir {
        PortDir::Right => Pos { x: center.x.plus(along), y: center.y.plus(across) },
        PortDir::Left => Pos { x: center.x.minus(along), y: center.y.minus(across) },
        PortDir::Down => Pos { x: center.x.minus(across), y: center.y.plus(along) },
        PortDir::Up => Pos { x: center.x.plus(across), y: center.y.minus(along) },
        PortDir::Inside => center,
    }
}

/// The marker of a port: a triangle points away from the icon; a port with no
/// outward axis gets a square in its place.
pub open spec fn port_marker_spec(
    center: Pos,
    shape: PortShape,
    dir: PortDir,
    scale: Fixed,
) -> PortMarker {
    let r = ratio_spec(14, 10).times_spec(scale);
    let half = r.times_spec(ratio_spec(8, 10));
    let square = PortMarker::Square(
        Rect {
            min: Pos { x: center.x.minus_spec(half), y: center.y.minus_spec(half) },
            max: Pos { x: center.x.plus_spec(half), y: center.y.plus_spec(half) },
        },
    );
    match shape {
        PortShape::InputSquare => square,
        PortShape::OutputTriangle => if dir == PortDir::Inside {
            square
        } else {
            let back = r.times_spec(ratio_spec(4, 10)).neg_spec();
            let side = r.times_spec(ratio_spec(9, 10));
            PortMarker::Triangle(
                beside(center, dir, r.times_spec(ratio_spec(14, 10)), Fixed { steps: 0 }),
                beside(center, dir, back, side),
                beside(center, dir, back, side.neg_spec()),
            )
        },
        PortShape::AcausalCircle => PortMarker::Circle(center, r.minus_spec(ratio_spec(1, 1))),
    }
}

/// The marker of a port at a point of the screen.
pub fn port_marker(center: Pos, shape: PortShape, dir: PortDir, scale: Fixed) -> (m: PortMarker)
    ensures
        m == port_marker_spec(center, shape, dir, scale),
{
    let r = Fixed::ratio(14, 10).times(scale);
    let half = r.times(Fixed::ratio(8, 10));
    let square = PortMarker::Square(
        Rect {
            min: Pos { x: center.x.minus(half), y: center.y.minus(half) },
            max: Pos { x: center.x.plus(half), y: center.y.plus(half) },
        },
    );
    match shape {
        PortShape::InputSquare => square,
        PortShape::OutputTriangle => if dir == PortDir::Inside {
            square
        } else {
            let back = r.times(Fixed::ratio(4, 10)).negated();
            let side = r.times(Fixed::ratio(9, 10));
            PortMarker::Triangle(
                beside_point(center, dir, r.times(Fixed::ratio(14, 10)), Fixed { steps: 0 }),
                beside_point(center, dir, back, side),
                beside_point(center, dir, back, side.negated()),
            )
        },
        PortShape::AcausalCircle => PortMarker::Circle(center, r.minus(Fixed::whole(1))),
    }
}

// ── Dashed borders ───────────────────────────────────────────────────────

/// How many steps a dash is long.
pub const DASH_STEPS: i64 = 0x4_0000_0000;

/// How many steps lie between the starts of two dashes.
pub const DASH_PERIOD_STEPS: i64 = 0x7_0000_0000;

/// The shortest edge that gets dashes, in steps.
pub const SHORTEST_EDGE_STEPS: i64 = 512;

/// The point `t` steps along an axis from `a`; `forward` tells which way.
pub open spec fn along(a: Pos, horizontal: bool, forward: bool, t: int) -> Pos {
    let d = if forward {
        t
    } else {
        -t
    };
    if horizontal {
        Pos { x: bounded(a.x.steps + d), y: a.y }
    } else {
        Pos { x: a.x, y: bounded(a.y.steps + d) }
    }
}

/// The dashes of an edge of `len` steps from the offset `t` on: four pixels
/// each, three apart, the last one cut off at the end.
pub open spec fn dashes_from(
    a: Pos,
    horizontal: bool,
    forward: bool,
    len: int,
    t: int,
) -> Seq<(Pos, Pos)>
    decreases len + DASH_PERIOD_STEPS - t,
{
    if t >= len {
        Seq::empty()
    } else {
        let end = if t + DASH_STEPS < len {
            t + DASH_STEPS
        } else {
            len
        };
        seq![(along(a, horizontal, forward, t), along(a, horizontal, forward, end))] + dashes_from(
            a,
            horizontal,
            forward,
            len,
            t + DASH_PERIOD_STEPS,
        )
    }
}

/// The dashes of an edge that spans `span` along an axis.
pub open spec fn edge_dashes(a: Pos, horizontal: bool, span: Fixed) -> Seq<(Pos, Pos)> {
    let len = span.abs_spec().steps;
    if len < SHORTEST_EDGE_STEPS {
        Seq::empty()
    } else {
        dashes_from(a, horizontal, span.steps >= 0, len as int, 0)
    }
}

/// The dashes of the border of a rectangle: top, right, bottom, left, each in
/// the direction of the clock.
pub open spec fn dashed_border_spec(r: Rect) -> Seq<(Pos, Pos)> {
    let w = r.width_spec();
    let h = r.height_spec();
    edge_dashes(r.min, true, w) + edge_dashes(Pos { x: r.max.x, y: r.min.y }, false, h)
        + edge_dashes(r.max, true, w.neg_spec()) + edge_dashes(
        Pos { x: r.min.x, y: r.max.y },
        false,
        h.neg_spec(),
    )
}

fn point_along(a: Pos, horizontal: bool, forward: bool, t: i64) -> (r: Pos)
    requires
        0 <= t <= crate::fixed::MAX_STEPS,
    ensures
        r == along(a, horizontal, forward, t as int),
{
    let d = Fixed { steps: t };
    if horizontal {
        Pos {
            x: if forward {
                a.x.plus(d)
            } else {
                a.x.minus(d)
            },
            y: a.y,
        }
    } else {
        Pos {
            x: a.x,
            y: if forward {
                a.y.plus(d)
            } else {
                a.y.minus(d)
            },
        }
    }
}

fn push_dashes(out: &mut Vec<(Pos, Pos)>, a: Pos, horizontal: bool, span: Fixed)
    requires
        span.in_bounds(),
    ensures
        final(out)@ == old(out)@ + edge_dashes(a, horizontal, span),
{
    let len: i64 = span.abs().steps;
    let ghost before = out@;
    let ghost all = edge_dashes(a, horizontal, span);
    if len < SHORTEST_EDGE_STEPS {
        assert(out@ =~= before + all);
        return ;
    }
    let forward = span.steps >= 0;
    let mut t: i64 = 0;
    assert(before + dashes_from(a, horizontal, forward, len as int, 0) =~= before + all);
    while t < len
        invariant
            0 <= t <= len + DASH_PERIOD_STEPS,
            len <= crate::fixed::MAX_STEPS,
            out@ + dashes_from(a, horizontal, forward, len as int, t as int) == before + all,
        decreases len + DASH_PERIOD_STEPS - t,
    {
        let end: i64 = if t + DASH_STEPS < len {
            t + DASH_STEPS
        } else {
            len
        };
        let ghost done = out@;
        let dash = (
            point_along(a, horizontal, forward, t),
            point_along(a, horizontal, forward, end),
        );
        out.push(dash);
        let ghost rest = dashes_from(
            a,
            horizontal,
            forward,
            len as int,
            t + DASH_PERIOD_STEPS,
        );
        assert(done + (seq![dash] + rest) =~= out@ + rest);
        t = t + DASH_PERIOD_STEPS;
    }
    assert(out@ + Seq::<(Pos, Pos)>::empty() =~= out@);
}

/// The dashes of the border of a rectangle of the screen.
pub fn dashed_border(r: Rect) -> (dashes: Vec<(Pos, Pos)>)
    ensures
        dashes@ == dashed_border_spec(r),
{
    let w = r.width();
    let h = r.height();
    let mut out: Vec<(Pos, Pos)> = Vec::new();
    push_dashes(&mut out, r.min, true, w);
    push_dashes(&mut out, Pos { x: r.max.x, y: r.min.y }, false, h);
    push_dashes(&mut out, r.max, true, w.negated());
    push_dashes(&mut out, Pos { x: r.min.x, y: r.max.y }, false, h.negated());
    assert(out@ =~= dashed_border_spec(r));
    out
}

// ── Connector icons ──────────────────────────────────────────────────────

/// The packages around a class, innermost first: what precedes each dot.
pub open spec fn enclosing_packages(path: Seq<char>) -> Seq<Seq<char>>
    decreases path.len(),
    when true
    via packages_shrink
{
    match before_last(path, '.') {
        Some(pkg) => seq![pkg] + enclosing_packages(pkg),
        None => Seq::empty(),
    }
}

#[via_fn]
proof fn packages_shrink(path: Seq<char>) {
    crate::text::lemma_last_index(path, '.');
}

/// The places where a connector class of a package is looked for: in its
/// interfaces, then in the package itself. A package without a name is none.
pub open spec fn candidates_in(pkg: Seq<char>, connector: Seq<char>) -> Seq<Seq<char>> {
    if pkg.len() > 0 {
        seq![pkg + ".Interfaces."@ + connector, pkg + "."@ + connector]
    } else {
        Seq::empty()
    }
}

/// The places where a connector class is looked for in a chain of packages.
pub open spec fn candidates_along(pkgs: Seq<Seq<char>>, connector: Seq<char>) -> Seq<Seq<char>>
    decreases pkgs.len(),
{
    if pkgs.len() == 0 {
        Seq::empty()
    } else {
        candidates_in(pkgs[0], connector) + candidates_along(pkgs.drop_first(), connector)
    }
}

/// The full paths under which a connector class may be known: the path itself
/// where it is one, else its name in each package around the parent class,
/// innermost first, and at last the bare name. None where there is no name.
pub open spec fn connector_candidates_spec(connector: Seq<char>, parent: Seq<char>) -> Seq<Seq<char>> {
    if has_char(connector, '.') {
        seq![connector]
    } else if connector.len() > 0 {
        candidates_along(enclosing_packages(parent), connector).push(connector)
    } else {
        Seq::empty()
    }
}

/// The full paths under which a connector class may be known, the likeliest
/// first.
pub fn connector_candidates(connector: &str, parent: &str) -> (r: Vec<String>)
    ensures
        views(r@) == connector_candidates_spec(connector@, parent@),
{
    let mut out: Vec<String> = Vec::new();
    if contains_char(connector, '.') {
        out.push(connector.to_owned());
        assert(views(out@) =~= seq![connector@]);
        return out;
    }
    if connector.is_empty() {
        assert(views(out@) =~= Seq::empty());
        return out;
    }
    let mut scope: String = parent.to_owned();
    let ghost all = candidates_along(enclosing_packages(parent@), connector@);
    assert(views(out@) + all =~= all);
    loop
        invariant_except_break
            views(out@) + candidates_along(enclosing_packages(scope@), connector@) == all,
        ensures
            views(out@) == all,
        decreases scope@.len(),
    {
        proof {
            crate::text::lemma_last_index(scope@, '.');
        }
        match text_before_last(scope.as_str(), '.') {
            None => {
                assert(views(out@) + Seq::<Seq<char>>::empty() =~= views(out@));
                break;
            },
            Some(pkg) => {
                let ghost before = views(out@);
                let ghost rest = enclosing_packages(pkg@);
                assert(enclosing_packages(scope@).drop_first() =~= rest);
                if !pkg.as_str().is_empty() {
                    let a = text3(pkg.as_str(), ".Interfaces.", connector);
                    let b = text3(pkg.as_str(), ".", connector);
                    out.push(a);
                    out.push(b);
                }
                assert(views(out@) =~= before + candidates_in(pkg@, connector@));
                assert(views(out@) + candidates_along(rest, connector@) =~= before + (
                candidates_in(pkg@, connector@) + candidates_along(rest, connector@)));
                scope = pkg;
            },
        }
    }
    let ghost before = views(out@);
    out.push(connector.to_owned());
    assert(views(out@) =~= before.push(connector@));
    out
}

/// The first connector of the port `port`, at or after place `from`.
pub open spec fn connector_of_port(cs: Seq<PortConnector>, port: Seq<char>, from: int) -> Option<
    PortConnector,
>
    decreases cs.len() - from,
{
    if from >= cs.len() {
        None
    } else if cs[from].port@ == port {
        Some(cs[from])
    } else {
        connector_of_port(cs, port, from + 1)
    }
}

/// How a port's connector icon is found and drawn.
#[derive(Debug, PartialEq, Eq)]
pub struct PortIcon {
    pub candidates: Vec<String>,
    pub size_x: Fixed,
    pub size_y: Fixed,
    pub rotation_deg: Fixed,
}

/// Whether `r` says how the icon of a port is found and drawn: by the port's
/// connector class, twenty by twenty and upright where nothing is known of the
/// port. The parent's rotation turns the icon with it.
pub open spec fn is_port_icon(r: PortIcon, data: IconNodeData, port: Seq<char>) -> bool {
    let c = connector_of_port(data.port_connector_paths@, port, 0);
    &&& views(r.candidates@) == connector_candidates_spec(
        match c {
            Some(c) => c.path@,
            None => Seq::empty(),
        },
        data.qualified_type@,
    )
    &&& r.size_x == (match c {
        Some(c) => c.size_x,
        None => ratio_spec(20, 1),
    })
    &&& r.size_y == (match c {
        Some(c) => c.size_y,
        None => ratio_spec(20, 1),
    })
    &&& r.rotation_deg == data.rotation_deg.minus_spec(
        match c {
            Some(c) => c.rotation_deg,
            None => Fixed { steps: 0 },
        },
    )
}

/// How the icon of a port is found and drawn.
pub fn port_icon(data: &IconNodeData, port: &str) -> (r: PortIcon)
    ensures
        is_port_icon(r, *data, port@),
{
    let cs = &data.port_connector_paths;
    let mut i: usize = 0;
    while i < cs.len()
        invariant
            i <= cs@.len(),
            cs@ == data.port_connector_paths@,
            connector_of_port(cs@, port@, 0) == connector_of_port(cs@, port@, i as int),
        decreases cs@.len() - i,
    {
        if same_text(cs[i].port.as_str(), port) {
            return PortIcon {
                candidates: connector_candidates(
                    cs[i].path.as_str(),
                    data.qualified_type.as_str(),
                ),
                size_x: cs[i].size_x,
                size_y: cs[i].size_y,
                rotation_deg: data.rotation_deg.minus(cs[i].rotation_deg),
            };
        }
        i += 1;
    }
    let none: &str = "";
    proof {
        reveal_strlit("");
        assert(none@ =~= Seq::empty());
    }
    PortIcon {
        candidates: connector_candidates(none, data.qualified_type.as_str()),
        size_x: Fixed::whole(20),
        size_y: Fixed::whole(20),
        rotation_deg: data.rotation_deg.minus(Fixed { steps: 0 }),
    }
}

/// Half the extent of a port's icon on the canvas: its part of the parent's
/// frame of two hundred units.
pub open spec fn port_half_extent(size: Fixed, parent: Fixed) -> Fixed {
    size.half_spec().over_spec(ratio_spec(100, 1)).times_spec(
        parent.max_spec(ratio_spec(1, 1)).half_spec(),
    )
}

/// The box, on the canvas, of the icon of a port at `world`.
pub open spec fn icon_box_at(parent: Rect, world: Pos, size_x: Fixed, size_y: Fixed) -> Rect {
    let hx = port_half_extent(size_x, parent.width_spec());
    let hy = port_half_extent(size_y, parent.height_spec());
    Rect {
        min: Pos { x: world.x.minus_spec(hx), y: world.y.minus_spec(hy) },
        max: Pos { x: world.x.plus_spec(hx), y: world.y.plus_spec(hy) },
    }
}

/// The box, on the canvas, of the icon of a port at `world`.
pub fn port_icon_box(node: &SceneNode, world: Pos, size_x: Fixed, size_y: Fixed) -> (r: Rect)
    ensures
        r == icon_box_at(node.rect, world, size_x, size_y),
{
    let hundred = Fixed::whole(100);
    let one = Fixed::whole(1);
    let hx = size_x.half().over(hundred).times(node.rect.width().larger(one).half());
    let hy = size_y.half().over(hundred).times(node.rect.height().larger(one).half());
    Rect {
        min: Pos { x: world.x.minus(hx), y: world.y.minus(hy) },
        max: Pos { x: world.x.plus(hx), y: world.y.plus(hy) },
    }
}

/// The edge of the icon that a port at `world` sits on.
pub open spec fn side_at(parent: Rect, world: Pos) -> PortDir {
    let cx = parent.min.x.plus_spec(parent.width_spec().half_spec());
    let cy = parent.min.y.plus_spec(parent.height_spec().half_spec());
    edge_dir(world.x.minus_spec(cx), world.y.minus_spec(cy))
}

/// The edge of the icon that a port at `world` sits on.
pub fn port_side(node: &SceneNode, world: Pos) -> (r: PortDir)
    ensures
        r == side_at(node.rect, world),
{
    let cx = node.rect.min.x.plus(node.rect.width().half());
    let cy = node.rect.min.y.plus(node.rect.height().half());
    port_edge_dir(world.x.minus(cx), world.y.minus(cy))
}

// ── Whole icons ──────────────────────────────────────────────────────────

/// How a port of an icon is drawn: the icon of its connector class in
/// `icon_box`, or, where the class has none, a marker of the given shape.
#[derive(Debug, PartialEq, Eq)]
pub struct PortDrawing {
    pub world: Pos,
    pub side: PortDir,
    pub icon: PortIcon,
    pub icon_box: Rect,
    pub shape: PortShape,
}

/// How an icon node is drawn, from the back to the front.
#[derive(Debug, PartialEq, Eq)]
pub struct IconDrawing {
    /// How opaque everything is drawn: a component that is there only under a
    /// condition is drawn at half opacity.
    pub opacity: Fixed,
    /// The graphics of the body.
    pub body: Option<u64>,
    /// Whether a plain card stands in for the icon that the class lacks.
    pub placeholder: bool,
    /// The class name on that card.
    pub label: Option<String>,
    pub border: Option<Border>,
    pub ports: Vec<PortDrawing>,
    /// Whether the card with the values of the instance is shown.
    pub card: bool,
}

/// Whether `d` draws a port of an icon in the frame `parent`.
pub open spec fn draws_port(
    d: PortDrawing,
    parent: Rect,
    data: IconNodeData,
    port: ScenePort,
) -> bool {
    &&& d.world == (Pos {
        x: parent.min.x.plus_spec(port.local_offset.x),
        y: parent.min.y.plus_spec(port.local_offset.y),
    })
    &&& d.side == side_at(parent, d.world)
    &&& is_port_icon(d.icon, data, port.id@)
    &&& d.icon_box == icon_box_at(parent, d.world, d.icon.size_x, d.icon.size_y)
    &&& d.shape == shape_of(port.kind)
}

/// The graphics that a node's body is drawn from: those of the diagram
/// annotation, which only connectors have, in place of the icon's. A class
/// without an icon has none.
pub open spec fn body_of(data: IconNodeData) -> Option<u64> {
    if data.icon_graphics is Some && data.diagram_graphics is Some {
        data.diagram_graphics
    } else {
        data.icon_graphics
    }
}

/// Whether `d` draws an icon node.
pub open spec fn draws_icon(
    d: IconDrawing,
    node: SceneNode,
    data: IconNodeData,
    look: IconLook,
    t: CanvasThemeSnapshot,
) -> bool {
    let drew_icon = data.icon_graphics is Some;
    let name = leaf(data.qualified_type@);
    &&& d.opacity == (if data.is_conditional {
        ratio_spec(1, 2)
    } else {
        ratio_spec(1, 1)
    })
    &&& d.body == body_of(data)
    &&& d.placeholder == !drew_icon
    &&& d.label is Some == (!drew_icon && name.len() > 0 && look.height.steps > ratio_spec(
        30,
        1,
    ).steps)
    &&& d.label is Some ==> d.label->0@ == name
    &&& d.border == border_of(
        BorderFacts {
            selected: look.selected,
            icon_only: data.icon_only,
            expandable_connector: data.expandable_connector,
            drew_icon,
        },
        t,
    )
    &&& d.ports@.len() == node.ports@.len()
    &&& forall|i: int|
        0 <= i < node.ports@.len() ==> draws_port(
            #[trigger] d.ports@[i],
            node.rect,
            data,
            node.ports@[i],
        )
    &&& d.card == (look.over_icon && look.in_canvas && data.instance_name@.len() > 0)
}

/// What the screen says of an icon node: whether it is selected, how high it
/// is drawn, and whether the pointer lies over it and inside the canvas.
#[derive(Clone, Copy, Debug, PartialEq, Eq, Structural)]
pub struct IconLook {
    pub selected: bool,
    pub height: Fixed,
    pub over_icon: bool,
    pub in_canvas: bool,
}

/// How an icon node is drawn.
pub fn draw_icon(
    node: &SceneNode,
    data: &IconNodeData,
    look: IconLook,
    t: &CanvasThemeSnapshot,
) -> (r: IconDrawing)
    ensures
        draws_icon(r, *node, *data, look, *t),
{
    let drew_icon = data.icon_graphics.is_some();
    let name = icon_type_label(data);
    let label = if !drew_icon && shows_type_label(name.as_str(), look.height) {
        Some(name)
    } else {
        None
    };
    let facts = BorderFacts {
        selected: look.selected,
        icon_only: data.icon_only,
        expandable_connector: data.expandable_connector,
        drew_icon,
    };
    let mut ports: Vec<PortDrawing> = Vec::new();
    let mut i: usize = 0;
    while i < node.ports.len()
        invariant
            i <= node.ports@.len(),
            ports@.len() == i,
            forall|j: int|
                0 <= j < i ==> draws_port(
                    #[trigger] ports@[j],
                    node.rect,
                    *data,
                    node.ports@[j],
                ),
        decreases node.ports@.len() - i,
    {
        let port = &node.ports[i];
        let world = Pos {
            x: node.rect.min.x.plus(port.local_offset.x),
            y: node.rect.min.y.plus(port.local_offset.y),
        };
        let icon = port_icon(data, port.id.as_str());
        let icon_box = port_icon_box(node, world, icon.size_x, icon.size_y);
        ports.push(
            PortDrawing {
                world,
                side: port_side(node, world),
                icon,
                icon_box,
                shape: port_shape(port.kind),
            },
        );
        i += 1;
    }
    let body = match data.icon_graphics {
        Some(icon) => match data.diagram_graphics {
            Some(diagram) => Some(diagram),
            None => Some(icon),
        },
        None => None,
    };
    let opacity = if data.is_conditional {
        Fixed::ratio(1, 2)
    } else {
        Fixed::whole(1)
    };
    IconDrawing {
        opacity,
        body,
        placeholder: !drew_icon,
        label,
        border: node_border(&facts, t),
        ports,
        card: shows_hover_card(look.over_icon, look.in_canvas, data.instance_name.as_str()),
    }
}

// ── The hover card ───────────────────────────────────────────────────────

/// Whether the card is shown: the pointer lies over the icon and inside the
/// canvas, and the node has a name.
pub fn shows_hover_card(over_icon: bool, in_canvas: bool, instance: &str) -> (r: bool)
    ensures
        r == (over_icon && in_canvas && instance@.len() > 0),
{
    over_icon && in_canvas && !instance.is_empty()
}

/// The places of the keys that start with `prefix`, in order.
pub open spec fn places_with_prefix(keys: Seq<Seq<char>>, prefix: Seq<char>, n: int) -> Seq<int>
    decreases n,
{
    if n <= 0 {
        Seq::empty()
    } else if prefix.is_prefix_of(keys[n - 1]) {
        places_with_prefix(keys, prefix, n - 1).push(n - 1)
    } else {
        places_with_prefix(keys, prefix, n - 1)
    }
}

/// The keys at the given places.
pub open spec fn picked(keys: Seq<Seq<char>>, chosen: Seq<int>) -> Seq<Seq<char>> {
    Seq::new(chosen.len(), |i: int| keys[chosen[i]])
}

/// Whether `rows` lists the places of the keys that start with `prefix`, in
/// the order of the keys.
pub open spec fn is_sorted_by_key(rows: Seq<int>, keys: Seq<Seq<char>>, prefix: Seq<char>) -> bool {
    let chosen = places_with_prefix(keys, prefix, keys.len() as int);
    exists|order: Seq<int>|
        {
            &&& #[trigger] is_name_order(order, picked(keys, chosen))
            &&& rows == Seq::new(order.len(), |i: int| chosen[order[i]])
        }
}

/// The places of the sampled variables of an instance, in the order of their
/// names.
pub fn rows_of_instance(keys: &Vec<String>, instance: &str) -> (r: Vec<usize>)
    ensures
        is_sorted_by_key(places(r@), views(keys@), instance@ + "."@),
{
    let prefix = text2(instance, ".");
    let ghost all = views(keys@);
    let mut chosen: Vec<usize> = Vec::new();
    let mut names: Vec<String> = Vec::new();
    let mut i: usize = 0;
    assert(places(chosen@) =~= places_with_prefix(all, prefix@, 0));
    while i < keys.len()
        invariant
            i <= keys@.len(),
            all == views(keys@),
            places(chosen@) == places_with_prefix(all, prefix@, i as int),
            names@.len() == chosen@.len(),
            forall|j: int|
                0 <= j < chosen@.len() ==> (#[trigger] chosen@[j]) < i && names@[j]@
                    == all[chosen@[j] as int],
        decreases keys@.len() - i,
    {
        if starts_with(keys[i].as_str(), prefix.as_str()) {
            let ghost before = chosen@;
            chosen.push(i);
            names.push(keys[i].clone());
            assert(places(chosen@) =~= places(before).push(i as int));
        }
        i += 1;
    }
    let order = name_order(&names);
    let ghost rows_at = places(chosen@);
    let ghost ord = places(order@);
    assert(views(names@) =~= picked(all, rows_at));
    let mut rows: Vec<usize> = Vec::new();
    let mut k: usize = 0;
    while k < order.len()
        invariant
            k <= order@.len(),
            ord == places(order@),
            rows_at == places(chosen@),
            is_name_order(ord, views(names@)),
            names@.len() == chosen@.len(),
            rows@.len() == k,
            forall|j: int| 0 <= j < k ==> (#[trigger] rows@[j]) as int == rows_at[ord[j]],
        decreases order@.len() - k,
    {
        assert(ord[k as int] == order@[k as int]);
        rows.push(chosen[order[k]]);
        k += 1;
    }
    assert(places(rows@) =~= Seq::new(ord.len(), |i: int| rows_at[ord[i]]));
    assert(rows_at == places_with_prefix(all, instance@ + "."@, all.len() as int));
    assert(is_name_order(ord, picked(all, rows_at)));
    rows
}

/// A run of `n` spaces.
pub open spec fn spaces(n: nat) -> Seq<char>
    decreases n,
{
    if n == 0 {
        Seq::empty()
    } else {
        spaces((n - 1) as nat).push(' ')
    }
}

/// The spaces that bring a text to a width of `n` characters.
pub open spec fn padding(s: Seq<char>, n: nat) -> Seq<char> {
    if s.len() < n {
        spaces((n - s.len()) as nat)
    } else {
        Seq::empty()
    }
}

fn padding_for(s: &str, n: usize) -> (r: String)
    ensures
        r@ == padding(s@, n as nat),
{
    let mut out = String::new();
    let len: usize = s.unicode_len();
    let mut i: usize = len;
    while i < n
        invariant
            len == s@.len(),
            len < n ==> len <= i <= n,
            len >= n ==> i == len,
            out@ == spaces((i - len) as nat),
        decreases n - i,
    {
        out.push(' ');
        i += 1;
    }
    out
}

/// A line of the hover card: what it says, and whether it is the title.
#[derive(Debug, PartialEq, Eq)]
pub struct CardLine {
    pub text: String,
    pub title: bool,
}

/// A line by its contents.
pub type CardLineView = (Seq<char>, bool);

pub open spec fn line_views(v: Seq<CardLine>) -> Seq<CardLineView> {
    v.map_values(|l: CardLine| (l.text@, l.title))
}

/// A sampled variable: its full name, and its value with four digits.
#[derive(Debug, PartialEq, Eq)]
pub struct SampledRow {
    pub key: String,
    pub value: String,
}

/// The line for a variable: its name inside the instance, filled up to ten
/// characters on the right, and its value, filled up to ten on the left.
pub open spec fn value_line(instance: Seq<char>, row: SampledRow) -> Seq<char> {
    let short = match without_prefix(row.key@, instance + "."@) {
        Some(s) => s,
        None => row.key@,
    };
    short + padding(short, 10) + "  "@ + (padding(row.value@, 10) + row.value@)
}

/// The lines of the hover card: the instance, its class where it has one, and
/// its variables, or a hint where none was sampled.
pub open spec fn card_lines(
    instance: Seq<char>,
    class_name: Seq<char>,
    rows: Seq<SampledRow>,
) -> Seq<CardLineView> {
    let head = if class_name.len() > 0 {
        seq![(instance, true), (class_name, false)]
    } else {
        seq![(instance, true)]
    };
    if rows.len() == 0 {
        head.push(("(no values yet — run a sim)"@, false))
    } else {
        head + rows.map_values(|r: SampledRow| (value_line(instance, r), false))
    }
}

fn line_of_value(instance: &str, row: &SampledRow) -> (r: String)
    ensures
        r@ == value_line(instance@, *row),
{
    let prefix = text2(instance, ".");
    let short = match strip_prefix(row.key.as_str(), prefix.as_str()) {
        Some(s) => s,
        None => row.key.clone(),
    };
    let fill = padding_for(short.as_str(), 10);
    let left = text3(short.as_str(), fill.as_str(), "  ");
    let lead = padding_for(row.value.as_str(), 10);
    let right = text2(lead.as_str(), row.value.as_str());
    text2(left.as_str(), right.as_str())
}

/// The lines of the hover card.
pub fn hover_card_lines(instance: &str, class_name: &str, rows: &Vec<SampledRow>) -> (r: Vec<
    CardLine,
>)
    ensures
        line_views(r@) == card_lines(instance@, class_name@, rows@),
{
    let mut lines: Vec<CardLine> = Vec::new();
    lines.push(CardLine { text: instance.to_owned(), title: true });
    assert(line_views(lines@) =~= seq![(instance@, true)]);
    if !class_name.is_empty() {
        lines.push(CardLine { text: class_name.to_owned(), title: false });
        assert(line_views(lines@) =~= seq![(instance@, true), (class_name@, false)]);
    }
    let ghost head = line_views(lines@);
    if rows.len() == 0 {
        lines.push(
            CardLine { text: "(no values yet — run a sim)".to_owned(), title: false },
        );
        assert(line_views(lines@) =~= head.push(("(no values yet — run a sim)"@, false)));
        return lines;
    }
    let ghost shown = rows@.map_values(|r: SampledRow| (value_line(instance@, r), false));
    let mut i: usize = 0;
    assert(head + shown.take(0) =~= head);
    while i < rows.len()
        invariant
            i <= rows@.len(),
            shown == rows@.map_values(|r: SampledRow| (value_line(instance@, r), false)),
            line_views(lines@) == head + shown.take(i as int),
        decreases rows@.len() - i,
    {
        let text = line_of_value(instance, &rows[i]);
        let ghost before = lines@;
        lines.push(CardLine { text, title: false });
        assert(line_views(lines@) =~= line_views(before).push(shown[i as int]));
        assert(head + shown.take(i + 1) =~= (head + shown.take(i as int)).push(shown[i as int]));
        i += 1;
    }
    assert(shown.take(i as int) =~= shown);
    lines
}

/// The most characters in a line.
pub open spec fn longest_line(lines: Seq<CardLine>) -> nat
    decreases lines.len(),
{
    if lines.len() == 0 {
        0
    } else {
        let rest = longest_line(lines.drop_last());
        if lines.last().text@.len() > rest {
            lines.last().text@.len()
        } else {
            rest
        }
    }
}

/// The size of the hover card: seven pixels for each character of its longest
/// line and twelve for its borders, between 120 and 360; fourteen pixels for
/// each line, and twelve.
pub open spec fn card_size(lines: Seq<CardLine>) -> (Fixed, Fixed) {
    (
        ratio_spec(7, 1).many_spec(longest_line(lines)).plus_spec(ratio_spec(12, 1)).clamp_spec(
            ratio_spec(120, 1),
            ratio_spec(360, 1),
        ),
        ratio_spec(14, 1).many_spec(lines.len()).plus_spec(ratio_spec(12, 1)),
    )
}

/// Where a side of the card lies: behind the pointer, or before it where the
/// card would leave the screen.
pub open spec fn card_side(cursor: Fixed, size: Fixed, screen_end: Fixed) -> Fixed {
    let gap = ratio_spec(14, 1);
    if cursor.plus_spec(gap).plus_spec(size).steps > screen_end.steps {
        cursor.minus_spec(size).minus_spec(gap)
    } else {
        cursor.plus_spec(gap)
    }
}

fn longest(lines: &Vec<CardLine>) -> (r: usize)
    ensures
        r == longest_line(lines@),
{
    let mut best: usize = 0;
    let mut i: usize = 0;
    while i < lines.len()
        invariant
            i <= lines@.len(),
            best == longest_line(lines@.take(i as int)),
        decreases lines@.len() - i,
    {
        assert(lines@.take(i + 1).drop_last() =~= lines@.take(i as int));
        assert(lines@.take(i + 1).last() == lines@[i as int]);
        let n: usize = lines[i].text.as_str().unicode_len();
        if n > best {
            best = n;
        }
        i += 1;
    }
    assert(lines@.take(i as int) =~= lines@);
    best
}

fn side_of_card(cursor: Fixed, size: Fixed, screen_end: Fixed) -> (r: Fixed)
    ensures
        r == card_side(cursor, size, screen_end),
{
    let gap = Fixed::whole(14);
    if cursor.plus(gap).plus(size).steps > screen_end.steps {
        cursor.minus(size).minus(gap)
    } else {
        cursor.plus(gap)
    }
}

/// The rectangle of the hover card on the screen.
pub open spec fn card_rect_spec(cursor: Pos, screen: Rect, lines: Seq<CardLine>) -> Rect {
    let (w, h) = card_size(lines);
    Rect::sized_spec(
        Pos { x: card_side(cursor.x, w, screen.max.x), y: card_side(cursor.y, h, screen.max.y) },
        w,
        h,
    )
}

/// The rectangle of the hover card on the screen.
pub fn hover_card_rect(cursor: Pos, screen: Rect, lines: &Vec<CardLine>) -> (r: Rect)
    ensures
        r == card_rect_spec(cursor, screen, lines@),
{
    let w = Fixed::whole(7).many(longest(lines) as u64).plus(Fixed::whole(12)).clamped(
        Fixed::whole(120),
        Fixed::whole(360),
    );
    let h = Fixed::whole(14).many(lines.len() as u64).plus(Fixed::whole(12));
    let min = Pos {
        x: side_of_card(cursor.x, w, screen.max.x),
        y: side_of_card(cursor.y, h, screen.max.y),
    };
    Rect::from_min_size(min, w, h)
}

// ── Laws ─────────────────────────────────────────────────────────────────

/// A selected node has a plain ring two pixels wide in the colour of selections,
/// whatever else it is. Otherwise decorative classes and expandable connectors are
/// dashed, and nothing else is; and only a node that shows its own icon, and is
/// neither, may go without a border.
pub proof fn law_borders_tell_what_a_node_is(f: BorderFacts, t: CanvasThemeSnapshot)
    ensures
        f.selected ==> (border_of(f, t) matches Some(b) && b.width.steps == 2 * UNIT && b.color
            == t.select_stroke && !b.dashed),
        !f.selected && (f.icon_only || f.expandable_connector) ==> (border_of(f, t) matches Some(b)
            && b.dashed),
        !f.selected && f.icon_only ==> (border_of(f, t) matches Some(b) && b.color
            == t.icon_only_stroke && b.width.steps == UNIT),
        !f.selected && !f.icon_only && f.expandable_connector ==> (border_of(f, t) matches Some(b)
            && b.color == t.select_stroke && 2 * b.width.steps == 3 * UNIT),
        !f.selected && !f.icon_only && !f.expandable_connector && !f.drew_icon ==> (
        border_of(f, t) matches Some(b) && b.color == t.inactive_stroke && !b.dashed
            && b.width.steps == UNIT),
        border_of(f, t) is None <==> !f.selected && !f.icon_only && !f.expandable_connector
            && f.drew_icon && !t.show_authored_icon_border,
        border_of(f, t) matches Some(b) ==> b.width.steps > 0,
        !f.selected && !f.icon_only && !f.expandable_connector && f.drew_icon
            && t.show_authored_icon_border ==> (border_of(f, t) matches Some(b) && !b.dashed
            && b.color.a >= 40 && 4 * b.width.steps == 3 * UNIT && (t.inactive_stroke.a >= 120
            ==> 3 * b.color.a <= t.inactive_stroke.a < 3 * b.color.a + 3)),
{
    crate::fixed::law_ratios_of_whole_numbers(2, 1);
    crate::fixed::law_ratios_of_whole_numbers(1, 1);
    assert(ratio_spec(3, 2).steps == 0x1_8000_0000);
    assert(ratio_spec(3, 4).steps == 0xC000_0000);
}

/// How far a size of a port's marker may be off, in steps: less than a
/// thousandth of a pixel.
pub open spec fn near(a: int, b: int) -> bool {
    -0x600_0000 <= a - b <= 0x600_0000
}

proof fn lemma_scaled(n: int, x: Fixed)
    requires
        1 <= n <= 20,
        UNIT <= x.steps <= 0x4_0000 * UNIT,
    ensures
        ({
            let y = ratio_spec(n, 10).times_spec(x).steps;
            &&& 0 < y
            &&& n * x.steps - 0x30_0000 < 10 * y <= n * x.steps
            &&& y == x.times_spec(ratio_spec(n, 10)).steps
        }),
{
    let f = ratio_spec(n, 10).steps as int;
    let s = x.steps as int;
    assert(n * UNIT - 10 < 10 * f <= n * UNIT && f >= 0) by {
        crate::fixed::law_ratios_of_whole_numbers(n, 10);
        assert(n * UNIT >= 0);
    }
    let p = f * s;
    assert(0 <= p <= crate::fixed::MAX_STEPS * UNIT) by (nonlinear_arith)
        requires
            p == f * s,
            0 <= f <= 2 * UNIT,
            0 <= s <= 0x4_0000 * UNIT,
            UNIT == 0x1_0000_0000,
            crate::fixed::MAX_STEPS == 0x3fff_ffff_ffff_ffff,
    ;
    crate::fixed::law_products_round_toward_zero(ratio_spec(n, 10), x);
    let y = ratio_spec(n, 10).times_spec(x).steps as int;
    assert(s * f == f * s) by (nonlinear_arith);
    let m = n * s;
    assert(10 * p <= m * UNIT && 10 * p > m * UNIT - 10 * s && m >= s) by (nonlinear_arith)
        requires
            p == f * s,
            m == n * s,
            n * UNIT - 10 < 10 * f <= n * UNIT,
            s > 0,
            n >= 1,
    ;
    assert(10 * y <= m);
    assert(10 * (y + 1) * UNIT > m * UNIT - 10 * s);
    assert(10 * (y + 1) > m - 10 * 0x4_0000 - 1);
}

/// The triangle of an output points away from the icon: its tip lies straight
/// outward from the port, and its two other corners lie at one distance behind the
/// port, as far to the one side of it as to the other.
pub proof fn law_output_triangles_point_outward(center: Pos, dir: PortDir, scale: Fixed)
    requires
        -0x1000_0000 * UNIT <= center.x.steps <= 0x1000_0000 * UNIT,
        -0x1000_0000 * UNIT <= center.y.steps <= 0x1000_0000 * UNIT,
        UNIT <= scale.steps <= 0x1_0000 * UNIT,
        !(dir is Inside),
    ensures
        port_marker_spec(center, PortShape::OutputTriangle, dir, scale) matches PortMarker::Triangle(
            tip,
            a,
            b,
        ) && {
            let s = scale.steps as int;
            let out = if dir is Right {
                (tip.x.steps - center.x.steps, center.x.steps - a.x.steps)
            } else if dir is Left {
                (center.x.steps - tip.x.steps, a.x.steps - center.x.steps)
            } else if dir is Down {
                (tip.y.steps - center.y.steps, center.y.steps - a.y.steps)
            } else {
                (center.y.steps - tip.y.steps, a.y.steps - center.y.steps)
            };
            &&& near(100 * out.0, 196 * s)
            &&& near(100 * out.1, 56 * s)
            &&& dir is Right || dir is Left ==> {
                &&& a.x == b.x
                &&& tip.y == center.y
                &&& a.y.steps + b.y.steps == 2 * center.y.steps
                &&& near(100 * (a.y.steps - b.y.steps), 252 * s) || near(
                    100 * (b.y.steps - a.y.steps),
                    252 * s,
                )
            }
            &&& dir is Down || dir is Up ==> {
                &&& a.y == b.y
                &&& tip.x == center.x
                &&& a.x.steps + b.x.steps == 2 * center.x.steps
                &&& near(100 * (a.x.steps - b.x.steps), 252 * s) || near(
                    100 * (b.x.steps - a.x.steps),
                    252 * s,
                )
            }
        },
{
    let r = ratio_spec(14, 10).times_spec(scale);
    lemma_scaled(14, scale);
    lemma_scaled(14, r);
    lemma_scaled(4, r);
    lemma_scaled(9, r);
}

/// The square of an input, and of a port that points nowhere, lies around the
/// port, a little over a pixel to each side at normal scale; the circle of any
/// other port has its middle in the port.
pub proof fn law_port_markers_lie_around_the_port(center: Pos, dir: PortDir, scale: Fixed)
    requires
        -0x1000_0000 * UNIT <= center.x.steps <= 0x1000_0000 * UNIT,
        -0x1000_0000 * UNIT <= center.y.steps <= 0x1000_0000 * UNIT,
        UNIT <= scale.steps <= 0x1_0000 * UNIT,
    ensures
        port_marker_spec(center, PortShape::InputSquare, dir, scale) matches PortMarker::Square(r) && {
            &&& r.min.x.steps + r.max.x.steps == 2 * center.x.steps
            &&& r.min.y.steps + r.max.y.steps == 2 * center.y.steps
            &&& near(100 * (r.max.x.steps - center.x.steps), 112 * scale.steps)
            &&& r.max.y.steps - r.min.y.steps == r.max.x.steps - r.min.x.steps
        },
        port_marker_spec(center, PortShape::OutputTriangle, PortDir::Inside, scale)
            == port_marker_spec(center, PortShape::InputSquare, dir, scale),
        port_marker_spec(center, PortShape::AcausalCircle, dir, scale) matches PortMarker::Circle(
            c,
            radius,
        ) && c == center && near(10 * (radius.steps + UNIT), 14 * scale.steps),
{
    let r = ratio_spec(14, 10).times_spec(scale);
    lemma_scaled(14, scale);
    lemma_scaled(8, r);
    crate::fixed::law_ratios_of_whole_numbers(1, 1);
}

/// The dashes of an edge are four pixels long and start seven pixels apart, from
/// the given offset on; the last ends where the edge ends if not before.
pub proof fn law_dashes_start_seven_pixels_apart(
    a: Pos,
    horizontal: bool,
    forward: bool,
    len: int,
    t: int,
    i: int,
)
    requires
        0 <= i < dashes_from(a, horizontal, forward, len, t).len(),
    ensures
        ({
            let d = dashes_from(a, horizontal, forward, len, t);
            let start = t + 7 * UNIT * i;
            let end = if start + 4 * UNIT < len {
                start + 4 * UNIT
            } else {
                len
            };
            &&& start < len
            &&& d[i].0 == along(a, horizontal, forward, start)
            &&& d[i].1 == along(a, horizontal, forward, end)
            &&& i == d.len() - 1 ==> start + 7 * UNIT >= len
        }),
    decreases i,
{
    let rest = dashes_from(a, horizontal, forward, len, t + DASH_PERIOD_STEPS);
    if i > 0 {
        law_dashes_start_seven_pixels_apart(
            a,
            horizontal,
            forward,
            len,
            t + DASH_PERIOD_STEPS,
            i - 1,
        );
        assert(dashes_from(a, horizontal, forward, len, t)[i] == rest[i - 1]);
    } else if rest.len() > 0 {
    } else {
        reveal_with_fuel(dashes_from, 2);
    }
}

/// A point along an edge lies on the edge's axis, as many steps from its start as
/// it is along, in the edge's direction.
pub proof fn law_points_along_an_edge(a: Pos, horizontal: bool, forward: bool, t: int)
    requires
        a.in_bounds(),
        0 <= t,
        -crate::fixed::MAX_STEPS <= a.x.steps - t && a.x.steps + t <= crate::fixed::MAX_STEPS,
        -crate::fixed::MAX_STEPS <= a.y.steps - t && a.y.steps + t <= crate::fixed::MAX_STEPS,
    ensures
        horizontal ==> along(a, horizontal, forward, t).y == a.y,
        !horizontal ==> along(a, horizontal, forward, t).x == a.x,
        horizontal && forward ==> along(a, horizontal, forward, t).x.steps == a.x.steps + t,
        horizontal && !forward ==> along(a, horizontal, forward, t).x.steps == a.x.steps - t,
        !horizontal && forward ==> along(a, horizontal, forward, t).y.steps == a.y.steps + t,
        !horizontal && !forward ==> along(a, horizontal, forward, t).y.steps == a.y.steps - t,
{
}

/// The dashed border of a rectangle runs once around it with the clock: along the
/// top to the right, down the right side, along the bottom to the left and up the
/// left side, each side from corner to corner.
pub proof fn law_dashed_borders_run_around(r: Rect)
    requires
        r.min.in_bounds() && r.max.in_bounds(),
        UNIT <= r.max.x.steps - r.min.x.steps <= crate::fixed::MAX_STEPS,
        UNIT <= r.max.y.steps - r.min.y.steps <= crate::fixed::MAX_STEPS,
    ensures
        ({
            let w = r.max.x.steps - r.min.x.steps;
            let h = r.max.y.steps - r.min.y.steps;
            dashed_border_spec(r) == dashes_from(r.min, true, true, w, 0) + dashes_from(
                Pos { x: r.max.x, y: r.min.y },
                false,
                true,
                h,
                0,
            ) + dashes_from(r.max, true, false, w, 0) + dashes_from(
                Pos { x: r.min.x, y: r.max.y },
                false,
                false,
                h,
                0,
            )
        }),
{
}

/// The packages around a class are what precedes each dot of its path, from the
/// last dot to the first: there are falling places of dots, one for each package,
/// and every dot is among them.
pub proof fn law_packages_enclose_a_class(path: Seq<char>) -> (at: Seq<int>)
    ensures
        at.len() == enclosing_packages(path).len(),
        forall|a: int, b: int| 0 <= a < b < at.len() ==> at[a] > at[b],
        forall|i: int| 0 <= i < path.len() ==> (at.contains(i) <==> #[trigger] path[i] == '.'),
        forall|k: int|
            0 <= k < at.len() ==> 0 <= #[trigger] at[k] < path.len() && enclosing_packages(path)[k]
                == path.take(at[k]),
    decreases path.len(),
{
    crate::text::lemma_last_index(path, '.');
    let d = crate::text::last_index(path, '.');
    if d < 0 {
        Seq::empty()
    } else {
        let pkg = path.take(d);
        let rest = law_packages_enclose_a_class(pkg);
        let at = seq![d] + rest;
        assert forall|i: int| 0 <= i < path.len() implies (at.contains(i) <==> #[trigger] path[i]
            == '.') by {
            if i < d {
                assert(pkg[i] == path[i]);
                if rest.contains(i) {
                    let k = choose|k: int| 0 <= k < rest.len() && rest[k] == i;
                    assert(at[k + 1] == i);
                }
                if at.contains(i) {
                    let k = choose|k: int| 0 <= k < at.len() && at[k] == i;
                    assert(rest[k - 1] == i);
                }
            } else {
                if i == d {
                    assert(at[0] == i);
                }
                if at.contains(i) {
                    let k = choose|k: int| 0 <= k < at.len() && at[k] == i;
                    if k > 0 {
                        assert(rest[k - 1] == i);
                    }
                }
            }
        }
        assert forall|k: int| 0 <= k < at.len() implies 0 <= #[trigger] at[k] < path.len()
            && enclosing_packages(path)[k] == path.take(at[k]) by {
            if k > 0 {
                assert(at[k] == rest[k - 1]);
                assert(pkg.take(rest[k - 1]) =~= path.take(rest[k - 1]));
                assert(enclosing_packages(path)[k] == enclosing_packages(pkg)[k - 1]);
            }
        }
        at
    }
}

proof fn lemma_candidates_along(pkgs: Seq<Seq<char>>, connector: Seq<char>, i: int) -> (k: int)
    requires
        0 <= i < pkgs.len(),
        pkgs[i].len() > 0,
    ensures
        0 <= k < candidates_along(pkgs, connector).len() - 1,
        candidates_along(pkgs, connector)[k] == pkgs[i] + ".Interfaces."@ + connector,
        candidates_along(pkgs, connector)[k + 1] == pkgs[i] + "."@ + connector,
    decreases i,
{
    let head = candidates_in(pkgs[0], connector);
    let tail = candidates_along(pkgs.drop_first(), connector);
    let all = candidates_along(pkgs, connector);
    assert(all == head + tail);
    if i == 0 {
        0
    } else {
        assert(pkgs.drop_first()[i - 1] == pkgs[i]);
        let k = lemma_candidates_along(pkgs.drop_first(), connector, i - 1);
        assert(all[head.len() + k] == tail[k]);
        assert(all[head.len() + k + 1] == tail[k + 1]);
        head.len() + k
    }
}

/// A bare connector name is looked for in every package around the parent class,
/// each time in its interfaces first and in the package itself next, and as it
/// stands at last. A path is looked for as it stands alone, and no name nowhere.
pub proof fn law_connectors_are_looked_for_in_every_package(
    connector: Seq<char>,
    parent: Seq<char>,
    dot: int,
) -> (k: int)
    requires
        !connector.contains('.'),
        connector.len() > 0,
        0 < dot < parent.len(),
        parent[dot] == '.',
    ensures
        ({
            let c = connector_candidates_spec(connector, parent);
            &&& 0 <= k < c.len() - 2
            &&& c[k] == parent.take(dot) + ".Interfaces."@ + connector
            &&& c[k + 1] == parent.take(dot) + "."@ + connector
            &&& c.last() == connector
        }),
{
    let at = law_packages_enclose_a_class(parent);
    assert(at.contains(dot));
    let i = choose|i: int| 0 <= i < at.len() && at[i] == dot;
    let pkgs = enclosing_packages(parent);
    assert(pkgs[i] == parent.take(dot));
    crate::text::law_texts_fall_apart_at_a_character(connector, '.');
    lemma_candidates_along(pkgs, connector, i)
}

proof fn lemma_candidate_source(pkgs: Seq<Seq<char>>, connector: Seq<char>, k: int) -> (i: int)
    requires
        0 <= k < candidates_along(pkgs, connector).len(),
    ensures
        0 <= i < pkgs.len(),
        pkgs[i].len() > 0,
        candidates_along(pkgs, connector)[k] == pkgs[i] + ".Interfaces."@ + connector
            || candidates_along(pkgs, connector)[k] == pkgs[i] + "."@ + connector,
    decreases pkgs.len(),
{
    let head = candidates_in(pkgs[0], connector);
    let tail = candidates_along(pkgs.drop_first(), connector);
    assert(candidates_along(pkgs, connector) == head + tail);
    if k < head.len() {
        0
    } else {
        let i = lemma_candidate_source(pkgs.drop_first(), connector, k - head.len());
        assert(pkgs.drop_first()[i] == pkgs[i + 1]);
        i + 1
    }
}

/// A path is looked for as it stands alone, no name nowhere, and a bare name, but
/// for itself, only in packages around the parent class.
pub proof fn law_connectors_are_looked_for_nowhere_else(
    connector: Seq<char>,
    parent: Seq<char>,
    k: int,
) -> (dot: int)
    ensures
        connector.contains('.') ==> connector_candidates_spec(connector, parent) == seq![connector],
        connector.len() == 0 ==> connector_candidates_spec(connector, parent).len() == 0,
        ({
            let c = connector_candidates_spec(connector, parent);
            connector.len() > 0 && !connector.contains('.') && 0 <= k < c.len() - 1 ==> {
                &&& 0 < dot < parent.len()
                &&& parent[dot] == '.'
                &&& c[k] == parent.take(dot) + ".Interfaces."@ + connector || c[k] == parent.take(
                    dot,
                ) + "."@ + connector
            }
        }),
{
    crate::text::law_texts_fall_apart_at_a_character(connector, '.');
    let c = connector_candidates_spec(connector, parent);
    if connector.len() > 0 && !connector.contains('.') && 0 <= k < c.len() - 1 {
        let at = law_packages_enclose_a_class(parent);
        let pkgs = enclosing_packages(parent);
        let i = lemma_candidate_source(pkgs, connector, k);
        assert(at.contains(at[i]));
        assert(parent[at[i]] == '.');
        assert(pkgs[i] == parent.take(at[i]));
        at[i]
    } else {
        0
    }
}

proof fn lemma_connector_of_port(cs: Seq<PortConnector>, port: Seq<char>, from: int, i: int)
    requires
        0 <= from <= i < cs.len(),
        cs[i].port@ == port,
        forall|k: int| from <= k < i ==> (#[trigger] cs[k]).port@ != port,
    ensures
        connector_of_port(cs, port, from) == Some(cs[i]),
    decreases i - from,
{
    if from < i {
        lemma_connector_of_port(cs, port, from + 1, i);
    }
}

/// The icon of a port has the size of the port's own connector, and is turned with
/// its icon against the connector's own rotation.
pub proof fn law_port_icons_are_those_of_their_connector(
    r: PortIcon,
    data: IconNodeData,
    port: Seq<char>,
    i: int,
)
    requires
        is_port_icon(r, data, port),
        0 <= i < data.port_connector_paths@.len(),
        data.port_connector_paths@[i].port@ == port,
        forall|k: int| 0 <= k < i ==> (#[trigger] data.port_connector_paths@[k]).port@ != port,
    ensures
        ({
            let c = data.port_connector_paths@[i];
            let turn = data.rotation_deg.steps - c.rotation_deg.steps;
            &&& r.size_x == c.size_x && r.size_y == c.size_y
            &&& -crate::fixed::MAX_STEPS <= turn <= crate::fixed::MAX_STEPS ==> r.rotation_deg.steps
                == turn
            &&& c.path@.contains('.') ==> views(r.candidates@) == seq![c.path@]
            &&& c.path@.len() > 0 ==> views(r.candidates@).len() > 0 && views(r.candidates@).last()
                == c.path@
        }),
{
    lemma_connector_of_port(data.port_connector_paths@, port, 0, i);
    let c = data.port_connector_paths@[i];
    crate::text::law_texts_fall_apart_at_a_character(c.path@, '.');
}

/// A port's icon lies around the port, and a connector that is as large as its
/// parent's frame of two hundred is drawn as large as the parent. In general half
/// an icon's extent is the parent's half, times the connector's half as a part of
/// a hundred.
pub proof fn law_port_icons_are_scaled_with_their_parent(
    parent: Rect,
    world: Pos,
    size_x: Fixed,
    size_y: Fixed,
) -> (part: Fixed)
    requires
        parent.min.in_bounds() && parent.max.in_bounds(),
        -0x100_0000 * UNIT <= world.x.steps <= 0x100_0000 * UNIT,
        -0x100_0000 * UNIT <= world.y.steps <= 0x100_0000 * UNIT,
        UNIT <= parent.max.x.steps - parent.min.x.steps <= 0x1_0000 * UNIT,
        UNIT <= parent.max.y.steps - parent.min.y.steps <= 0x1_0000 * UNIT,
        0 <= size_x.steps <= 1000 * UNIT,
        0 <= size_y.steps <= 1000 * UNIT,
    ensures
        ({
            let r = icon_box_at(parent, world, size_x, size_y);
            let w = parent.max.x.steps - parent.min.x.steps;
            let h = parent.max.y.steps - parent.min.y.steps;
            &&& r.min.x.steps + r.max.x.steps == 2 * world.x.steps
            &&& r.min.y.steps + r.max.y.steps == 2 * world.y.steps
            &&& size_x.steps == 200 * UNIT ==> r.max.x.steps - world.x.steps == w / 2
            &&& size_y.steps == 200 * UNIT ==> r.max.y.steps - world.y.steps == h / 2
            &&& 0 <= size_x.steps - 200 * part.steps < 201
            &&& 0 <= (w / 2) * part.steps - (r.max.x.steps - world.x.steps) * UNIT < UNIT
        }),
{
    lemma_half_extent(size_x, parent.width_spec());
    lemma_half_extent(size_y, parent.height_spec());
    size_x.half_spec().over_spec(ratio_spec(100, 1))
}

proof fn lemma_half_extent(size: Fixed, parent: Fixed)
    requires
        UNIT <= parent.steps <= 0x1_0000 * UNIT,
        0 <= size.steps <= 1000 * UNIT,
    ensures
        ({
            let q = size.half_spec().over_spec(ratio_spec(100, 1)).steps;
            let r = port_half_extent(size, parent).steps;
            &&& 0 <= size.steps - 200 * q < 201
            &&& 0 <= r <= 0x10_0000 * UNIT
            &&& 0 <= (parent.steps / 2) * q - r * UNIT < UNIT
            &&& size.steps == 200 * UNIT ==> r == parent.steps / 2
        }),
{
    crate::fixed::law_ratios_of_whole_numbers(100, 1);
    crate::fixed::law_ratios_of_whole_numbers(1, 1);
    let n = size.half_spec().steps as int;
    assert(n == size.steps / 2);
    let q = size.half_spec().over_spec(ratio_spec(100, 1)).steps as int;
    let d = 100 * UNIT;
    assert((n * UNIT) / d == n / 100) by (nonlinear_arith)
        requires
            d == 100 * UNIT,
            UNIT == 0x1_0000_0000,
    ;
    assert(n * UNIT >= 0);
    assert(q == n / 100);
    let p = parent.max_spec(ratio_spec(1, 1)).half_spec();
    let f = size.half_spec().over_spec(ratio_spec(100, 1));
    assert(p.steps == parent.steps / 2);
    let x = f.steps * p.steps;
    assert(0 <= x <= 0x10_0000 * UNIT * UNIT) by (nonlinear_arith)
        requires
            x == f.steps * p.steps,
            0 <= f.steps <= 5 * UNIT,
            0 <= p.steps <= 0x8000 * UNIT,
            UNIT == 0x1_0000_0000,
    ;
    assert(x <= crate::fixed::MAX_STEPS * UNIT);
    crate::fixed::law_products_round_toward_zero(f, p);
    let r = f.times_spec(p).steps as int;
    assert(p.steps * f.steps == f.steps * p.steps) by (nonlinear_arith);
    assert(r <= 0x10_0000 * UNIT);
    assert((parent.steps / 2) * q == x) by (nonlinear_arith)
        requires
            p.steps == parent.steps / 2,
            q == f.steps,
            x == f.steps * p.steps,
    ;
    if size.steps == 200 * UNIT {
        assert(x == UNIT * p.steps) by (nonlinear_arith)
            requires
                f.steps == UNIT,
                x == f.steps * p.steps,
        ;
    }
}

/// A port sits on the side of its icon that it lies nearest to: right of the
/// middle by more than it is above or below it, it sits on the right, and so
/// around.
pub proof fn law_ports_sit_on_their_side(parent: Rect, world: Pos)
    requires
        parent.min.in_bounds() && parent.max.in_bounds(),
        -0x1000_0000 * UNIT <= world.x.steps <= 0x1000_0000 * UNIT,
        -0x1000_0000 * UNIT <= world.y.steps <= 0x1000_0000 * UNIT,
        -0x800_0000 * UNIT <= parent.min.x.steps <= parent.max.x.steps <= 0x800_0000 * UNIT,
        -0x800_0000 * UNIT <= parent.min.y.steps <= parent.max.y.steps <= 0x800_0000 * UNIT,
    ensures
        ({
            let dx = world.x.steps - parent.min.x.steps - (parent.max.x.steps
                - parent.min.x.steps) / 2;
            let dy = world.y.steps - parent.min.y.steps - (parent.max.y.steps
                - parent.min.y.steps) / 2;
            let side = side_at(parent, world);
            &&& dx > UNIT && dx >= dy && dx >= -dy ==> side is Right
            &&& -dx > UNIT && -dx >= dy && -dx >= -dy ==> side is Left
            &&& dy > UNIT && dy > dx && dy > -dx ==> side is Down
            &&& -dy > UNIT && -dy > dx && -dy > -dx ==> side is Up
        }),
{
    let cx = parent.min.x.plus_spec(parent.width_spec().half_spec());
    let cy = parent.min.y.plus_spec(parent.height_spec().half_spec());
    crate::geometry::law_ports_point_along_their_larger_part(
        world.x.minus_spec(cx),
        world.y.minus_spec(cy),
    );
}

/// An icon is drawn with every one of its ports, each at its offset from the
/// icon's corner and in its own shape. Only what is there under a condition is
/// drawn at half opacity. A card stands in for the icon exactly where the class
/// has none, and it shows the last part of the class name where it is higher than
/// thirty.
pub proof fn law_icons_are_drawn_with_their_ports(
    d: IconDrawing,
    node: SceneNode,
    data: IconNodeData,
    look: IconLook,
    t: CanvasThemeSnapshot,
    i: int,
)
    requires
        draws_icon(d, node, data, look, t),
        0 <= i < node.ports@.len(),
        node.rect.min.in_bounds(),
        ({
            let o = node.ports@[i].local_offset;
            &&& -crate::fixed::MAX_STEPS <= node.rect.min.x.steps + o.x.steps
                <= crate::fixed::MAX_STEPS
            &&& -crate::fixed::MAX_STEPS <= node.rect.min.y.steps + o.y.steps
                <= crate::fixed::MAX_STEPS
        }),
    ensures
        d.ports@.len() == node.ports@.len(),
        d.ports@[i].world.x.steps == node.rect.min.x.steps + node.ports@[i].local_offset.x.steps,
        d.ports@[i].world.y.steps == node.rect.min.y.steps + node.ports@[i].local_offset.y.steps,
        d.ports@[i].shape is InputSquare <==> node.ports@[i].kind == PortKind::Input,
        d.ports@[i].shape is OutputTriangle <==> node.ports@[i].kind == PortKind::Output,
        d.ports@[i].shape is AcausalCircle <==> node.ports@[i].kind == PortKind::Acausal,
        data.is_conditional ==> 2 * d.opacity.steps == UNIT,
        !data.is_conditional ==> d.opacity.steps == UNIT,
        d.placeholder <==> data.icon_graphics is None,
        d.body is None <==> data.icon_graphics is None,
        data.icon_graphics is Some && data.diagram_graphics is Some ==> d.body
            == data.diagram_graphics,
        data.diagram_graphics is None ==> d.body == data.icon_graphics,
        d.label is Some <==> data.icon_graphics is None && look.height.steps > 30 * UNIT && leaf(
            data.qualified_type@,
        ).len() > 0,
        d.label matches Some(l) ==> l@ == leaf(data.qualified_type@),
        d.card <==> look.over_icon && look.in_canvas && data.instance_name@.len() > 0,
{
    assert(draws_port(d.ports@[i], node.rect, data, node.ports@[i]));
    crate::fixed::law_ratios_of_whole_numbers(1, 1);
    crate::fixed::law_ratios_of_whole_numbers(30, 1);
    assert(ratio_spec(1, 2).steps == 0x8000_0000);
}

proof fn lemma_places_with_prefix(keys: Seq<Seq<char>>, prefix: Seq<char>, n: int)
    requires
        0 <= n <= keys.len(),
    ensures
        forall|k: int|
            0 <= k < places_with_prefix(keys, prefix, n).len() ==> {
                let p = #[trigger] places_with_prefix(keys, prefix, n)[k];
                0 <= p < n && prefix.is_prefix_of(keys[p])
            },
        forall|a: int, b: int|
            0 <= a < b < places_with_prefix(keys, prefix, n).len() ==> places_with_prefix(
                keys,
                prefix,
                n,
            )[a] < places_with_prefix(keys, prefix, n)[b],
        forall|i: int|
            0 <= i < n && prefix.is_prefix_of(#[trigger] keys[i]) ==> places_with_prefix(
                keys,
                prefix,
                n,
            ).contains(i),
    decreases n,
{
    if n > 0 {
        lemma_places_with_prefix(keys, prefix, n - 1);
        let before = places_with_prefix(keys, prefix, n - 1);
        let all = places_with_prefix(keys, prefix, n);
        assert forall|i: int| 0 <= i < n && prefix.is_prefix_of(#[trigger] keys[i]) implies
            all.contains(i) by {
            if i < n - 1 {
                let k = choose|k: int| 0 <= k < before.len() && before[k] == i;
                assert(all[k] == i);
            } else {
                assert(all[before.len() as int] == i);
            }
        }
    }
}

/// The rows of the card are the variables of the instance and no others, each
/// once, and in the order of their names.
pub proof fn law_rows_are_the_variables_of_the_instance(
    rows: Seq<int>,
    keys: Seq<Seq<char>>,
    prefix: Seq<char>,
    i: int,
    j: int,
)
    requires
        is_sorted_by_key(rows, keys, prefix),
        0 <= i < j < rows.len(),
    ensures
        0 <= rows[i] < keys.len() && prefix.is_prefix_of(keys[rows[i]]),
        0 <= rows[j] < keys.len() && prefix.is_prefix_of(keys[rows[j]]),
        rows[i] != rows[j],
        crate::text::lex_le(keys[rows[i]], keys[rows[j]]),
{
    let chosen = places_with_prefix(keys, prefix, keys.len() as int);
    lemma_places_with_prefix(keys, prefix, keys.len() as int);
    let names = picked(keys, chosen);
    let order = choose|order: Seq<int>|
        {
            &&& #[trigger] is_name_order(order, names)
            &&& rows == Seq::new(order.len(), |i: int| chosen[order[i]])
        };
    assert(crate::text::name_before(names, order[i], order[j]));
    crate::text::law_name_order_has_no_repeats(order, names);
    assert(0 <= order[i] < chosen.len() && 0 <= order[j] < chosen.len());
    assert(rows[i] == chosen[order[i]] && rows[j] == chosen[order[j]]);
    assert(order[i] != order[j]);
}

/// There is a row for each variable of the instance.
pub proof fn law_every_variable_has_a_row(
    rows: Seq<int>,
    keys: Seq<Seq<char>>,
    prefix: Seq<char>,
)
    requires
        is_sorted_by_key(rows, keys, prefix),
    ensures
        rows.len() == places_with_prefix(keys, prefix, keys.len() as int).len(),
        forall|i: int|
            0 <= i < keys.len() && prefix.is_prefix_of(#[trigger] keys[i]) ==> places_with_prefix(
                keys,
                prefix,
                keys.len() as int,
            ).contains(i),
{
    lemma_places_with_prefix(keys, prefix, keys.len() as int);
}

proof fn lemma_spaces(n: nat)
    ensures
        spaces(n).len() == n,
        forall|i: int| 0 <= i < n ==> #[trigger] spaces(n)[i] == ' ',
    decreases n,
{
    if n > 0 {
        lemma_spaces((n - 1) as nat);
    }
}

/// The line of a variable starts with its name inside the instance and ends with
/// its value; between them are spaces alone, so many that short names and values
/// take up ten characters each, and two more.
pub proof fn law_values_are_lined_up(instance: Seq<char>, row: SampledRow, short: Seq<char>, i: int)
    requires
        row.key@ == instance + "."@ + short,
    ensures
        ({
            let line = value_line(instance, row);
            let n = if short.len() < 10 {
                10nat
            } else {
                short.len()
            };
            let m = if row.value@.len() < 10 {
                10nat
            } else {
                row.value@.len()
            };
            &&& line.len() == n + 2 + m
            &&& line.take(short.len() as int) == short
            &&& line.skip(line.len() - row.value@.len()) == row.value@
            &&& short.len() <= i < line.len() - row.value@.len() ==> line[i] == ' '
        }),
{
    reveal_strlit("  ");
    let prefix = instance + "."@;
    crate::text::law_prefixes_come_off(prefix, short, row.key@);
    assert(row.key@ == prefix + short);
    let line = value_line(instance, row);
    if short.len() < 10 {
        lemma_spaces((10 - short.len()) as nat);
    }
    if row.value@.len() < 10 {
        lemma_spaces((10 - row.value@.len()) as nat);
    }
    assert(line.take(short.len() as int) =~= short);
    assert(line.skip(line.len() - row.value@.len()) =~= row.value@);
}

/// The card shows the instance as its title and first line, its class next where
/// it has one, and then a line for each variable in order; where there is none, a
/// single line that says so.
pub proof fn law_cards_have_a_line_for_each_value(
    instance: Seq<char>,
    class_name: Seq<char>,
    rows: Seq<SampledRow>,
    i: int,
)
    requires
        0 <= i,
    ensures
        ({
            let c = card_lines(instance, class_name, rows);
            let head = if class_name.len() > 0 {
                2int
            } else {
                1int
            };
            &&& c.len() == head + (if rows.len() == 0 {
                1
            } else {
                rows.len() as int
            })
            &&& c[0].0 == instance
            &&& c[0].1
            &&& class_name.len() > 0 ==> c[1] == (class_name, false)
            &&& 0 < i < c.len() ==> !c[i].1
            &&& i < rows.len() ==> c[head + i].0 == value_line(instance, rows[i])
        }),
{
}

proof fn lemma_longest(lines: Seq<CardLine>, i: int)
    requires
        0 <= i < lines.len(),
    ensures
        lines[i].text@.len() <= longest_line(lines),
    decreases lines.len(),
{
    if i < lines.len() - 1 {
        lemma_longest(lines.drop_last(), i);
        assert(lines.drop_last()[i] == lines[i]);
    }
}

proof fn lemma_longest_is_a_line(lines: Seq<CardLine>) -> (i: int)
    requires
        lines.len() > 0,
    ensures
        0 <= i < lines.len(),
        lines[i].text@.len() == longest_line(lines),
    decreases lines.len(),
{
    let rest = lines.drop_last();
    if lines.last().text@.len() > longest_line(rest) || rest.len() == 0 {
        lines.len() - 1
    } else {
        let i = lemma_longest_is_a_line(rest);
        assert(rest[i] == lines[i]);
        i
    }
}

/// A card is fourteen pixels high for each line and twelve more. It is wide enough
/// for seven pixels for each character of every line, and twelve more, but never
/// wider than 360; it is never narrower than 120, and no wider than its longest
/// line asks for.
pub proof fn law_cards_hold_their_lines(lines: Seq<CardLine>, i: int) -> (longest: int)
    requires
        0 <= i < lines.len() <= 0x100_0000,
        longest_line(lines) <= 0x100_0000,
    ensures
        0 <= longest < lines.len(),
        ({
            let (w, h) = card_size(lines);
            let ask = 7 * lines[i].text@.len() + 12;
            let most = 7 * lines[longest].text@.len() + 12;
            &&& h.steps == (14 * lines.len() + 12) * UNIT
            &&& 120 * UNIT <= w.steps <= 360 * UNIT
            &&& ask <= 360 ==> w.steps >= ask * UNIT
            &&& ask > 360 ==> w.steps == 360 * UNIT
            &&& most >= 120 ==> w.steps <= most * UNIT
            &&& most < 120 ==> w.steps == 120 * UNIT
        }),
{
    lemma_longest(lines, i);
    let k = lemma_longest_is_a_line(lines);
    crate::fixed::law_ratios_of_whole_numbers(7, 1);
    crate::fixed::law_ratios_of_whole_numbers(12, 1);
    crate::fixed::law_ratios_of_whole_numbers(14, 1);
    crate::fixed::law_ratios_of_whole_numbers(120, 1);
    crate::fixed::law_ratios_of_whole_numbers(360, 1);
    let n = longest_line(lines);
    assert((7 * UNIT) * n == (7 * n) * UNIT) by (nonlinear_arith);
    let m = lines.len();
    assert((14 * UNIT) * m == (14 * m) * UNIT) by (nonlinear_arith);
    k
}

/// A card never lies under the pointer: on each axis it starts fourteen pixels
/// behind it or ends fourteen before it, behind it exactly where it then still
/// ends on the screen.
pub proof fn law_cards_keep_clear_of_the_pointer(cursor: Fixed, size: Fixed, screen_end: Fixed)
    requires
        -0x1000_0000 * UNIT <= cursor.steps <= 0x1000_0000 * UNIT,
        0 <= size.steps <= 0x1000_0000 * UNIT,
    ensures
        ({
            let s = card_side(cursor, size, screen_end).steps;
            &&& s == cursor.steps + 14 * UNIT || s + size.steps == cursor.steps - 14 * UNIT
            &&& s == cursor.steps + 14 * UNIT <==> cursor.steps + 14 * UNIT + size.steps
                <= screen_end.steps
            &&& cursor.steps - 14 * UNIT <= screen_end.steps ==> s + size.steps <= screen_end.steps
        }),
{
    crate::fixed::law_ratios_of_whole_numbers(14, 1);
}

/// The card stands off the pointer to the right and below, fourteen pixels from it
/// on each axis, where it then ends on the screen; on an axis on which it would
/// not, it stands to the left or above. It is as large as its lines ask for.
pub proof fn law_cards_stand_beside_the_pointer(cursor: Pos, screen: Rect, lines: Seq<CardLine>)
    requires
        0 < lines.len() <= 0x10_0000,
        longest_line(lines) <= 0x10_0000,
        -0x100_0000 * UNIT <= cursor.x.steps <= 0x100_0000 * UNIT,
        -0x100_0000 * UNIT <= cursor.y.steps <= 0x100_0000 * UNIT,
    ensures
        ({
            let r = card_rect_spec(cursor, screen, lines);
            let (w, h) = card_size(lines);
            &&& r.max.x.steps - r.min.x.steps == w.steps
            &&& r.max.y.steps - r.min.y.steps == h.steps
            &&& cursor.x.steps + 14 * UNIT + w.steps <= screen.max.x.steps ==> r.min.x.steps
                == cursor.x.steps + 14 * UNIT
            &&& cursor.x.steps + 14 * UNIT + w.steps > screen.max.x.steps ==> r.max.x.steps
                == cursor.x.steps - 14 * UNIT
            &&& cursor.y.steps + 14 * UNIT + h.steps <= screen.max.y.steps ==> r.min.y.steps
                == cursor.y.steps + 14 * UNIT
            &&& cursor.y.steps + 14 * UNIT + h.steps > screen.max.y.steps ==> r.max.y.steps
                == cursor.y.steps - 14 * UNIT
        }),
{
    let k = law_cards_hold_their_lines(lines, 0);
    let (w, h) = card_size(lines);
    let m = (14 * lines.len() + 12) as int;
    assert(h.steps == m * UNIT);
    assert(0 <= m * UNIT <= 0x100_0000 * UNIT) by (nonlinear_arith)
        requires
            0 <= m <= 0x100_0000,
            UNIT == 0x1_0000_0000,
    ;
    law_cards_keep_clear_of_the_pointer(cursor.x, w, screen.max.x);
    law_cards_keep_clear_of_the_pointer(cursor.y, h, screen.max.y);
    crate::fixed::law_ratios_of_whole_numbers(14, 1);
}

} // verus!
