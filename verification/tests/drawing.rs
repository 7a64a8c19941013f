use canvas_diagram::color::{
    at_opacity, brighten, layer_theme_from, opaque, wire_color_for, CanvasThemeSnapshot, Rgba,
    Theme,
};
use canvas_diagram::edge_view::{
    dot_radius, dotted_path, draw_wire, edge_hover_text, flow_dots, flow_keys, flow_marks,
    hover_keys, port_kind_str, stroke_color, stroke_width, wire_path, Flow, FlowDots, FlowMark,
    OrthogonalEdgeVisual, WireLook,
};
use canvas_diagram::fixed::Fixed;
use canvas_diagram::geometry::{PortDir, Pos, Rect};
use canvas_diagram::icon_cache::PortIconCache;
use canvas_diagram::icon_view::{
    connector_candidates, dashed_border, draw_icon, hover_card_lines, hover_card_rect,
    icon_texts, icon_type_label, node_border, port_icon, port_icon_box, port_marker, port_shape,
    port_side, resolve_value, rows_of_instance, shows_hover_card, shows_type_label, Border, BorderFacts, CardLine,
    IconLook, PortMarker, PortShape, SampledRow,
};
use canvas_diagram::inputs::{
    picked_part, slider_box, slider_inputs, slider_tooltip, InputControl,
};
use canvas_diagram::model::{FlowVarMeta, PortKind, Rgb};
use canvas_diagram::scene::{
    ConnectionEdgeData, IconNodeData, NodeData, PortConnector, SceneNode, ScenePort,
};

fn f(n: i32) -> Fixed {
    Fixed::whole(n)
}

fn at(x: i32, y: i32) -> Pos {
    Pos::new(f(x), f(y))
}

fn rect(x1: i32, y1: i32, x2: i32, y2: i32) -> Rect {
    Rect { min: at(x1, y1), max: at(x2, y2) }
}

fn strings(v: &[&str]) -> Vec<String> {
    v.iter().map(|s| s.to_string()).collect()
}

// ── Colours ──────────────────────────────────────────────────────────────

#[test]
fn opacity_is_multiplied_in() {
    let c = Rgba { r: 255, g: 128, b: 10, a: 255 };
    assert_eq!(at_opacity(c, 128), Rgba { r: 128, g: 64, b: 5, a: 128 });
    assert_eq!(at_opacity(c, 0), Rgba { r: 0, g: 0, b: 0, a: 0 });
    assert_eq!(at_opacity(c, 255), c);
}

#[test]
fn opacity_agrees_with_the_toolkit() {
    for (v, a) in [(0u8, 7u8), (1, 127), (3, 200), (77, 33), (200, 254), (255, 1)] {
        let c = egui::Color32::from_rgba_unmultiplied(v, 255 - v, v / 2, a).to_array();
        let r = at_opacity(Rgba { r: v, g: 255 - v, b: v / 2, a: 9 }, a);
        assert_eq!([r.r, r.g, r.b, r.a], c);
    }
}

#[test]
fn wires_have_the_colours_of_their_domain() {
    assert_eq!(wire_color_for("Modelica.Electrical.Analog.Interfaces.Pin"), Rgb { r: 0, g: 0, b: 255 });
    assert_eq!(wire_color_for("HeatPort_a"), Rgb { r: 191, g: 0, b: 0 });
    assert_eq!(wire_color_for("Mine.Connector"), Rgb { r: 0, g: 0, b: 0 });
    assert_eq!(
        brighten(Rgba { r: 0, g: 100, b: 200, a: 9 }),
        Rgba { r: 80, g: 180, b: 255, a: 255 }
    );
}

fn theme() -> Theme {
    let c = |n: u8| Rgba { r: n, g: n, b: n, a: 255 };
    Theme {
        base: c(1),
        surface0: c(2),
        surface2: c(3),
        overlay0: c(100),
        overlay1: c(5),
        text: c(6),
        text_subdued: c(7),
        accent: c(200),
        warning: c(9),
        success: c(10),
        canvas_card: c(11),
    }
}

#[test]
fn themes_are_spread_over_the_canvas() {
    let t = theme();
    let s = CanvasThemeSnapshot::from_theme(&t);
    assert_eq!((s.card_fill, s.port_stroke), (t.canvas_card, t.surface2));
    assert!(!s.show_authored_icon_border);
    let l = layer_theme_from(&t);
    assert_eq!(l.grid, at_opacity(t.overlay0, 60));
    assert_eq!(l.rubber_band_fill, at_opacity(t.accent, 40));
    assert_eq!(l.overlay_shadow.a, 110);
    assert_eq!(l.snap_target, t.success);
}

// ── Wires ────────────────────────────────────────────────────────────────

fn edge(connector: &str, kind: PortKind, vars: &[(&str, &str)]) -> OrthogonalEdgeVisual {
    OrthogonalEdgeVisual::from_data(&ConnectionEdgeData {
        connector_type: connector.to_string(),
        from_dir: PortDir::Right,
        to_dir: PortDir::Left,
        waypoints_world: vec![at(1, 2)],
        icon_color: None,
        source_path: "tank.out".to_string(),
        target_path: "valve.in".to_string(),
        kind,
        flow_vars: vars
            .iter()
            .map(|(n, u)| FlowVarMeta { name: n.to_string(), unit: u.to_string() })
            .collect(),
    })
}

#[test]
fn signals_are_known_by_kind_or_by_name() {
    assert!(edge("X", PortKind::Input, &[]).is_causal);
    assert!(edge("Modelica.Blocks.Interfaces.RealOutput", PortKind::Acausal, &[]).is_causal);
    let pin = edge("Lib.Pin", PortKind::Acausal, &[]);
    assert!(!pin.is_causal);
    assert_eq!(pin.connector_leaf, "Pin");
    assert_eq!(pin.color, Rgba { r: 0, g: 0, b: 255, a: 255 });
    assert_eq!(opaque(Rgb { r: 1, g: 2, b: 3 }), Rgba { r: 1, g: 2, b: 3, a: 255 });
    let plain = OrthogonalEdgeVisual::default();
    assert_eq!(plain.color, Rgba { r: 0, g: 0, b: 0, a: 255 });
    assert_eq!(plain.from_dir, PortDir::Inside);
    assert_eq!(port_kind_str(PortKind::Input), "input");
    assert_eq!(port_kind_str(PortKind::Acausal), "acausal");
}

#[test]
fn strokes_tell_signals_and_selection() {
    assert_eq!(stroke_width(true, true), Fixed::ratio(22, 10));
    assert_eq!(stroke_width(false, true), Fixed::ratio(17, 10));
    assert_eq!(stroke_width(true, false), Fixed::ratio(16, 10));
    assert_eq!(stroke_width(false, false), Fixed::ratio(11, 10));
    let c = Rgba { r: 10, g: 20, b: 250, a: 100 };
    assert_eq!(stroke_color(c, false), c);
    assert_eq!(stroke_color(c, true), Rgba { r: 90, g: 100, b: 255, a: 255 });
}

#[test]
fn bends_are_followed_while_they_fit() {
    let bends = vec![at(50, 0), at(50, 40)];
    let p = wire_path(at(0, 0), PortDir::Right, at(100, 40), PortDir::Left, &bends, f(18));
    assert!(p.along_bends);
    assert_eq!(p.points, vec![at(0, 0), at(50, 0), at(50, 40), at(100, 40)]);
    let q = wire_path(at(0, 9), PortDir::Right, at(100, 40), PortDir::Left, &bends, f(18));
    assert!(!q.along_bends);
    assert_eq!((q.points[0], *q.points.last().unwrap()), (at(0, 9), at(100, 40)));
    let r = wire_path(at(0, 0), PortDir::Right, at(100, 40), PortDir::Left, &vec![], f(18));
    assert!(!r.along_bends);
}

#[test]
fn dots_run_with_the_flow() {
    let fluid = edge("FluidPort", PortKind::Acausal, &[("m_flow", "kg/s")]);
    assert_eq!(
        flow_keys(&fluid),
        Some(("tank.out.m_flow".to_string(), "valve.in.m_flow".to_string()))
    );
    let p = Some(Flow::Positive);
    let n = Some(Flow::Negative);
    assert_eq!(flow_dots(&fluid, p, None), Some(FlowDots::Backward));
    assert_eq!(flow_dots(&fluid, n, None), Some(FlowDots::Forward));
    assert_eq!(flow_dots(&fluid, None, p), Some(FlowDots::Forward));
    assert_eq!(flow_dots(&fluid, None, n), Some(FlowDots::Backward));
    assert_eq!(flow_dots(&fluid, Some(Flow::Still), p), None);
    assert_eq!(flow_dots(&fluid, None, None), None);
    let signal = edge("RealOutput", PortKind::Output, &[]);
    assert_eq!(flow_keys(&signal), None);
    assert_eq!(flow_dots(&signal, n, None), None);
    assert_eq!(flow_dots(&signal, p, p), None);
    let path = vec![at(0, 0), at(1, 0), at(1, 1)];
    assert_eq!(dotted_path(&path, FlowDots::Forward), path);
    assert_eq!(dotted_path(&path, FlowDots::Backward), vec![at(1, 1), at(1, 0), at(0, 0)]);
}

#[test]
fn hovering_tells_values() {
    let fluid = edge("Lib.FluidPort", PortKind::Acausal, &[("m_flow", "kg/s"), ("h", "")]);
    assert_eq!(hover_keys(&fluid), strings(&["tank.out.m_flow", "tank.out.h"]));
    assert_eq!(
        edge_hover_text(&fluid, &vec![Some("1.500".to_string()), None]),
        "FluidPort\n  m_flow = 1.500 kg/s\n  h = n/a"
    );
    let signal = edge("RealOutput", PortKind::Output, &[]);
    assert_eq!(hover_keys(&signal), strings(&["tank.out", "valve.in"]));
    assert_eq!(
        edge_hover_text(&signal, &vec![None, Some("2.000".to_string())]),
        "RealOutput\n  value = 2.000"
    );
    assert_eq!(edge_hover_text(&signal, &vec![None, None]), "RealOutput\n  value = n/a");
}

#[test]
fn dots_march_along_the_segments() {
    let mark = |segment, along| FlowMark { segment, along };
    let lengths = vec![f(10), f(0), f(30)];
    assert_eq!(
        flow_marks(&lengths, f(0)),
        vec![mark(0, f(0)), mark(2, f(6)), mark(2, f(22))]
    );
    // A quarter of a second later they are nine pixels on.
    assert_eq!(
        flow_marks(&lengths, Fixed::ratio(1, 4)),
        vec![mark(0, f(9)), mark(2, f(15))]
    );
    // After four ninths of a second the next dot stands where one was.
    assert_eq!(flow_marks(&lengths, f(4)), flow_marks(&lengths, f(0)));
    assert_eq!(flow_marks(&lengths, f(-1)), vec![mark(2, f(2)), mark(2, f(18))]);
    assert!(flow_marks(&vec![Fixed::ratio(1, 2)], f(0)).is_empty());
    assert!(flow_marks(&vec![], f(0)).is_empty());
    assert_eq!(dot_radius(), Fixed::ratio(13, 5));
}

#[test]
fn a_wire_is_drawn_whole() {
    let fluid = edge("FluidPort", PortKind::Acausal, &[("m_flow", "kg/s")]);
    let look = WireLook {
        from: at(0, 0),
        to: at(100, 40),
        stub: f(18),
        themed: Rgba { r: 1, g: 2, b: 3, a: 255 },
        selected: false,
        pointer: Some(at(2, 3)),
    };
    let d = draw_wire(&fluid, look, &vec![], Some(Flow::Positive), None);
    assert_eq!((d.color, d.width), (look.themed, Fixed::ratio(11, 10)));
    let mut back = d.points.clone();
    back.reverse();
    assert_eq!(d.dots, Some(back));
    assert!(d.hovered);
    let still = draw_wire(&fluid, look, &vec![], Some(Flow::Still), None);
    assert_eq!((&still.points, &still.dots), (&d.points, &None));
    // Along its bends a wire has neither dots nor a text.
    let bends = vec![at(50, 0), at(50, 40)];
    let along = draw_wire(&fluid, look, &bends, Some(Flow::Positive), None);
    assert_eq!(along.points, vec![at(0, 0), at(50, 0), at(50, 40), at(100, 40)]);
    assert_eq!((along.dots, along.hovered), (None, false));
    let picked = WireLook { selected: true, pointer: None, ..look };
    let p = draw_wire(&fluid, picked, &vec![], None, None);
    assert_eq!(p.color, Rgba { r: 81, g: 82, b: 83, a: 255 });
    assert!(!p.hovered);
}

// ── Icons ────────────────────────────────────────────────────────────────

fn icon_data() -> IconNodeData {
    IconNodeData {
        qualified_type: "Modelica.Blocks.Math.Gain".to_string(),
        icon_only: false,
        expandable_connector: false,
        icon_graphics: None,
        diagram_graphics: None,
        rotation_deg: f(90),
        mirror_x: false,
        mirror_y: false,
        instance_name: "gain".to_string(),
        parameters: vec![],
        port_connector_paths: vec![PortConnector {
            port: "u".to_string(),
            path: "RealInput".to_string(),
            size_x: f(40),
            size_y: f(30),
            rotation_deg: f(30),
        }],
        is_conditional: false,
    }
}

#[test]
fn the_texts_of_an_icon_name_what_there_is() {
    let mut data = icon_data();
    let bare = icon_texts(&data);
    assert_eq!(bare.name, Some("gain"));
    assert_eq!(bare.class_name.as_deref(), Some("Gain"));
    assert_eq!(bare.parameters, None);
    data.parameters.push(("k".to_string(), "2".to_string()));
    assert_eq!(icon_texts(&data).parameters, Some(&data.parameters));
    data.instance_name = String::new();
    data.qualified_type = "Modelica.".to_string();
    let nameless = icon_texts(&data);
    assert_eq!(nameless.name, None);
    assert_eq!(nameless.class_name, None);
}

fn icon_node() -> SceneNode {
    SceneNode {
        id: 0,
        rect: rect(0, 0, 20, 20),
        data: NodeData::Icon(icon_data()),
        ports: vec![],
        label: "gain".to_string(),
        origin: None,
        resizable: false,
        visual_rect: None,
    }
}

#[test]
fn connectors_are_looked_for_from_inside_out() {
    assert_eq!(
        connector_candidates("RealInput", "A.B.C"),
        strings(&[
            "A.B.Interfaces.RealInput",
            "A.B.RealInput",
            "A.Interfaces.RealInput",
            "A.RealInput",
            "RealInput"
        ])
    );
    assert_eq!(connector_candidates("X.Y", "A.B"), strings(&["X.Y"]));
    assert!(connector_candidates("", "A.B").is_empty());
}

#[test]
fn port_icons_turn_with_their_parent() {
    let i = port_icon(&icon_data(), "u");
    assert_eq!((i.size_x, i.size_y, i.rotation_deg), (f(40), f(30), f(60)));
    assert_eq!(i.candidates[0], "Modelica.Blocks.Math.Interfaces.RealInput");
    let j = port_icon(&icon_data(), "none");
    assert_eq!((j.size_x, j.rotation_deg), (f(20), f(90)));
    assert!(j.candidates.is_empty());
    assert_eq!(icon_type_label(&icon_data()), "Gain");
    assert_eq!(
        port_icon_box(&icon_node(), at(0, 10), f(100), f(200)),
        Rect { min: at(-5, 0), max: at(5, 20) }
    );
    assert_eq!(port_side(&icon_node(), at(0, 10)), PortDir::Left);
    assert_eq!(port_side(&icon_node(), at(10, 10)), PortDir::Inside);
}

#[test]
fn what_was_found_is_kept_until_a_document_changes() {
    let mut c = PortIconCache::new();
    assert_eq!(c.lookup("A"), None);
    c.keep("A", Some(3));
    c.keep("B", None);
    assert_eq!(c.lookup("A"), Some(Some(3)));
    assert_eq!(c.lookup("B"), Some(None));
    c.keep("A", Some(4));
    assert_eq!(c.lookup("A"), Some(Some(4)));
    c.invalidate();
    assert_eq!(c.lookup("A"), None);
}

#[test]
fn markers_show_causality() {
    assert_eq!(port_shape(PortKind::Input), PortShape::InputSquare);
    assert_eq!(port_shape(PortKind::Acausal), PortShape::AcausalCircle);
    let s = Fixed::whole(10);
    assert_eq!(
        port_marker(at(0, 0), PortShape::AcausalCircle, PortDir::Left, s),
        PortMarker::Circle(at(0, 0), Fixed::ratio(14, 10).times(s).minus(f(1)))
    );
    let square = port_marker(at(0, 0), PortShape::InputSquare, PortDir::Left, s);
    assert_eq!(port_marker(at(0, 0), PortShape::OutputTriangle, PortDir::Inside, s), square);
    match port_marker(at(0, 0), PortShape::OutputTriangle, PortDir::Up, s) {
        PortMarker::Triangle(tip, b1, b2) => {
            assert!(tip.x == f(0) && tip.y.steps < 0);
            assert_eq!(b1.x, b2.x.negated());
            assert!(b1.y.steps > 0 && b1.y == b2.y);
        }
        _ => panic!(),
    }
}

#[test]
fn borders_have_priorities() {
    let t = CanvasThemeSnapshot::from_theme(&theme());
    let facts = |selected, icon_only, expandable_connector, drew_icon| BorderFacts {
        selected,
        icon_only,
        expandable_connector,
        drew_icon,
    };
    assert_eq!(
        node_border(&facts(true, true, true, true), &t),
        Some(Border { width: f(2), color: t.select_stroke, dashed: false })
    );
    assert!(node_border(&facts(false, true, true, true), &t).unwrap().dashed);
    assert_eq!(
        node_border(&facts(false, false, true, true), &t).unwrap().width,
        Fixed::ratio(3, 2)
    );
    assert_eq!(node_border(&facts(false, false, false, false), &t).unwrap().width, f(1));
    assert_eq!(node_border(&facts(false, false, false, true), &t), None);
    let mut bordered = t;
    bordered.show_authored_icon_border = true;
    assert_eq!(node_border(&facts(false, false, false, true), &bordered).unwrap().color.a, 85);
}

#[test]
fn an_icon_is_drawn_whole() {
    let t = CanvasThemeSnapshot::from_theme(&theme());
    let mut node = icon_node();
    node.ports = vec![ScenePort {
        id: "u".to_string(),
        local_offset: at(0, 10),
        kind: PortKind::Input,
    }];
    let look = IconLook { selected: false, height: f(40), over_icon: true, in_canvas: true };
    let d = draw_icon(&node, &icon_data(), look, &t);
    assert!(d.placeholder && d.card);
    assert_eq!((d.opacity, d.body), (f(1), None));
    assert_eq!(d.label, Some("Gain".to_string()));
    assert_eq!(d.border.unwrap().color, t.inactive_stroke);
    assert_eq!(d.ports.len(), 1);
    assert_eq!((d.ports[0].world, d.ports[0].side), (at(0, 10), PortDir::Left));
    assert_eq!(d.ports[0].icon, port_icon(&icon_data(), "u"));
    assert_eq!(d.ports[0].icon_box, port_icon_box(&node, at(0, 10), f(40), f(30)));
    assert_eq!(d.ports[0].shape, PortShape::InputSquare);
    let mut data = icon_data();
    data.icon_graphics = Some(1);
    data.is_conditional = true;
    let e = draw_icon(&node, &data, IconLook { in_canvas: false, ..look }, &t);
    assert!(!e.placeholder && !e.card);
    assert_eq!((e.opacity, e.body), (Fixed::ratio(1, 2), Some(1)));
    assert_eq!((e.label, e.border), (None, None));
    // The graphics of a diagram annotation stand in for those of the icon.
    data.diagram_graphics = Some(2);
    assert_eq!(draw_icon(&node, &data, look, &t).body, Some(2));
    data.icon_graphics = None;
    assert_eq!(draw_icon(&node, &data, look, &t).body, None);
}

#[test]
fn dashes_go_around_a_rectangle() {
    let d = dashed_border(rect(0, 0, 10, 4));
    assert_eq!(
        d,
        vec![
            (at(0, 0), at(4, 0)),
            (at(7, 0), at(10, 0)),
            (at(10, 0), at(10, 4)),
            (at(10, 4), at(6, 4)),
            (at(3, 4), at(0, 4)),
            (at(0, 4), at(0, 0)),
        ]
    );
    assert_eq!(dashed_border(rect(3, 3, 3, 3)), vec![]);
}

#[test]
fn texts_of_icons_find_their_values() {
    let keys = strings(&["k", "gain.k", "x"]);
    assert_eq!(resolve_value(&keys, "gain", "k"), Some(1));
    assert_eq!(resolve_value(&keys, "", "k"), Some(0));
    assert_eq!(resolve_value(&keys, "gain", "x"), Some(2));
    assert_eq!(resolve_value(&keys, "gain", "y"), None);
    assert!(shows_type_label("Gain", f(31)));
    assert!(!shows_type_label("Gain", f(30)));
    assert!(!shows_type_label("", f(31)));
}

#[test]
fn the_hover_card_lists_values_by_name() {
    let keys = strings(&["gain.y", "gain2.u", "gain.k", "gain"]);
    assert_eq!(rows_of_instance(&keys, "gain"), vec![2, 0]);
    let rows = vec![SampledRow { key: "gain.k".to_string(), value: "2.0000".to_string() }];
    let lines = hover_card_lines("gain", "Gain", &rows);
    assert_eq!(lines[0], CardLine { text: "gain".to_string(), title: true });
    assert_eq!(lines[1], CardLine { text: "Gain".to_string(), title: false });
    assert_eq!(lines[2].text, "k               2.0000");
    let none = hover_card_lines("gain", "", &vec![]);
    assert_eq!(none[1].text, "(no values yet — run a sim)");
    assert!(shows_hover_card(true, true, "gain"));
    assert!(!shows_hover_card(true, true, ""));
}

#[test]
fn the_hover_card_stays_on_the_screen() {
    let lines = hover_card_lines("g", "", &vec![]);
    let r = hover_card_rect(at(10, 10), rect(0, 0, 800, 600), &lines);
    assert_eq!(r, rect(24, 24, 225, 64));
    let s = hover_card_rect(at(790, 590), rect(0, 0, 800, 600), &lines);
    assert_eq!(s.min, at(575, 536));
}

// ── Sliders ──────────────────────────────────────────────────────────────

fn control(name: &str, has_range: bool) -> InputControl {
    InputControl { name: name.to_string(), has_range }
}

#[test]
fn bounded_inputs_of_an_instance_get_sliders() {
    let inputs = vec![
        control("engine.throttle", true),
        control("engine.gimbal", true),
        control("engine.mass", false),
        control("engine2.throttle", true),
    ];
    let icon = rect(0, 0, 100, 100);
    assert_eq!(slider_inputs(&inputs, "engine", icon), vec![1, 0]);
    assert!(slider_inputs(&inputs, "engine", rect(0, 0, 100, 23)).is_empty());
    assert!(slider_inputs(&inputs, "", icon).is_empty());
}

#[test]
fn sliders_stand_side_by_side_from_the_right() {
    let icon = rect(0, 0, 50, 25);
    let first = slider_box(icon, 0);
    assert_eq!(first.min.x, f(44));
    assert_eq!(first.width(), f(4));
    assert_eq!(first.height(), f(25).times(Fixed::ratio(7, 10)));
    let second = slider_box(icon, 1);
    assert_eq!(second.min.x, f(44).minus(f(4).plus(f(4).times(Fixed::ratio(4, 10)))));
}

#[test]
fn the_top_of_a_slider_is_its_upper_bound() {
    let s = rect(0, 10, 4, 30);
    assert_eq!(picked_part(s, f(10)), f(1));
    assert_eq!(picked_part(s, f(30)), f(0));
    assert_eq!(picked_part(s, f(20)), Fixed::ratio(1, 2));
    assert_eq!(picked_part(s, f(-90)), f(1));
    assert_eq!(picked_part(s, f(90)), f(0));
}

#[test]
fn slider_tooltips() {
    assert_eq!(slider_tooltip("engine.throttle", true, "42.0", "0.00", "100.00"), "throttle: 42.0 %");
    assert_eq!(
        slider_tooltip("u", false, "1.500", "-1.00", "2.00"),
        "u: 1.500 (range -1.00 … 2.00)"
    );
}
