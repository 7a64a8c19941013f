use canvas_diagram::classes::{
    class_badge_letter, class_context, class_keyword, diagram_annotation_for_target,
    empty_overlay_class_info, first_non_package, locate_class, resolve_base_class,
    walk_qualified, Causality, ClassDef, ClassType, Component, Connect, Equation, Extent,
    GraphicItem, PlotItem, StoredDefinition, TextItem,
};
use canvas_diagram::coords::ModelicaPos;
use canvas_diagram::decorations::{background_box, background_graphics, emit_diagram_decorations};
use canvas_diagram::fixed::Fixed;
use canvas_diagram::geometry::{PortDir, Pos, Rect};
use canvas_diagram::model::{
    ComponentDef, DiagramEdge, DiagramNode, FlowVarMeta, ParamDef, PortDef, PortKind, Rgb,
    VisualDiagram,
};
use canvas_diagram::project::{project_scene, set_route};
use canvas_diagram::recover::recover_edges_from_source;
use canvas_diagram::scene::{NodeData, Scene};
use canvas_diagram::units::si_unit_suffix;

fn f(n: i32) -> Fixed {
    Fixed::whole(n)
}

fn at(x: i32, y: i32) -> Pos {
    Pos::new(f(x), f(y))
}

fn m(x: i32, y: i32) -> ModelicaPos {
    ModelicaPos::new(f(x), f(y))
}

fn rect(x1: i32, y1: i32, x2: i32, y2: i32) -> Rect {
    Rect { min: at(x1, y1), max: at(x2, y2) }
}

fn strings(v: &[&str]) -> Vec<String> {
    v.iter().map(|s| s.to_string()).collect()
}

fn pin(name: &str, x: i32, world: Pos, color: Option<Rgb>) -> PortDef {
    PortDef {
        name: name.to_string(),
        connector_type: "Modelica.Electrical.Analog.Interfaces.Pin".to_string(),
        msl_path: "Modelica.Electrical.Analog.Interfaces.Pin".to_string(),
        kind: PortKind::Acausal,
        at: m(x, 0),
        world,
        dir: at(x / 100, 0),
        size_x: f(20),
        size_y: f(20),
        rotation_deg: f(0),
        color,
        flow_vars: vec![FlowVarMeta { name: "i".to_string(), unit: "A".to_string() }],
    }
}

fn resistor(id: u64, name: &str, x: i32) -> DiagramNode {
    DiagramNode {
        id,
        instance_name: name.to_string(),
        component_def: ComponentDef {
            name: "Resistor".to_string(),
            msl_path: "Lib.Resistor".to_string(),
            description: None,
            icon_text: None,
            class_kind: "model".to_string(),
            is_icon_only: false,
            is_expandable_connector: false,
            icon_graphics: Some(1),
            diagram_graphics: Some(2),
            ports: vec![
                pin("p", -100, at(x, 10), None),
                pin("n", 100, at(x + 20, 10), Some(Rgb { r: 1, g: 2, b: 3 })),
                pin("heat", 0, at(0, 0), None),
            ],
            parameters: vec![
                ParamDef {
                    name: "R".to_string(),
                    param_type: "Modelica.Units.SI.Resistance".to_string(),
                    default: "1".to_string(),
                },
                ParamDef {
                    name: "k".to_string(),
                    param_type: "Real".to_string(),
                    default: "3".to_string(),
                },
            ],
        },
        parameter_values: vec![("R".to_string(), "47".to_string())],
        is_conditional: false,
        frame: rect(x, 0, x + 20, 20),
        visual: None,
        rotation_deg: f(0),
        mirror_x: false,
        mirror_y: false,
    }
}

fn wire(from: (u64, &str), to: (u64, &str), waypoints: Vec<ModelicaPos>) -> DiagramEdge {
    DiagramEdge {
        source_node: from.0,
        source_port: from.1.to_string(),
        target_node: to.0,
        target_port: to.1.to_string(),
        waypoints,
    }
}

fn diagram() -> VisualDiagram {
    VisualDiagram {
        nodes: vec![resistor(10, "R1", 0), resistor(20, "R2", 40), resistor(30, "R3", 80)],
        edges: vec![
            wire((10, "n"), (20, "p"), vec![]),
            wire((20, "n"), (99, "p"), vec![]),
            wire((20, "p"), (30, "n"), vec![m(5, 6)]),
        ],
    }
}

#[test]
fn components_become_icon_nodes() {
    let p = project_scene(&diagram());
    assert_eq!(p.ids, vec![(10, 0), (20, 1), (30, 2)]);
    let n = p.scene.node(1).unwrap();
    assert_eq!(n.rect, rect(40, 0, 60, 20));
    assert_eq!(n.label, "R2");
    assert_eq!(n.origin.as_deref(), Some("R2"));
    assert_eq!(n.ports[0].local_offset, at(0, 10));
    assert_eq!(n.ports[1].local_offset, at(20, 10));
    assert_eq!(n.ports[2].local_offset, at(0, 5));
    match &n.data {
        NodeData::Icon(d) => {
            assert_eq!(d.qualified_type, "Lib.Resistor");
            assert_eq!(
                d.parameters,
                vec![
                    ("R".to_string(), "47 Ohm".to_string()),
                    ("k".to_string(), "3".to_string())
                ]
            );
            assert_eq!(d.diagram_graphics, None);
        }
        _ => panic!(),
    }
}

#[test]
fn connections_between_known_components_become_edges() {
    let p = project_scene(&diagram());
    assert_eq!(p.scene.edges.len(), 2);
    let e = &p.scene.edges[0];
    assert_eq!((e.from.node, e.from.port.as_str()), (0, "n"));
    assert_eq!((e.to.node, e.to.port.as_str()), (1, "p"));
    assert_eq!(e.data.icon_color, Some(Rgb { r: 1, g: 2, b: 3 }));
    assert_eq!(e.data.source_path, "R1.n");
    assert_eq!(e.data.target_path, "R2.p");
    assert_eq!(e.data.from_dir, PortDir::Right);
    assert_eq!(e.data.to_dir, PortDir::Left);
    assert_eq!(e.data.flow_vars[0].name, "i");
    for e in &p.scene.edges {
        assert!(p.scene.node(e.from.node).is_some());
        assert!(p.scene.node(e.to.node).is_some());
    }
}

#[test]
fn authored_bends_are_kept_and_others_are_routed() {
    let mut p = project_scene(&diagram());
    assert_eq!(p.scene.edges[1].data.waypoints_world, vec![at(5, -6)]);
    assert_eq!(p.routes[1], None);
    let q = p.routes[0].as_ref().unwrap();
    assert_eq!((q.grid, q.bend_penalty, q.clearance), (f(4), f(80), f(2)));
    assert_eq!(q.from, at(20, 10));
    assert_eq!(q.to, at(40, 10));
    assert_eq!(q.from_out, (1, 0));
    assert_eq!(q.to_out, (-1, 0));
    assert_eq!(q.obstacles, vec![rect(80, 0, 100, 20)]);
    set_route(&mut p.scene, 0, &vec![at(20, 10), at(30, 10), at(30, 11), at(40, 10)]);
    assert_eq!(p.scene.edges[0].data.waypoints_world, vec![at(30, 10), at(30, 11)]);
    set_route(&mut p.scene, 0, &vec![at(20, 10)]);
    assert!(p.scene.edges[0].data.waypoints_world.is_empty());
}

#[test]
fn units_follow_the_quantity() {
    assert_eq!(si_unit_suffix("Modelica.Units.SI.Torque"), Some("N.m"));
    assert_eq!(si_unit_suffix("SI.ThermodynamicTemperature"), Some("K"));
    assert_eq!(si_unit_suffix("Real"), None);
}

// ── Connections of the source ────────────────────────────────────────────

fn connect(a: &str, b: &str) -> Equation {
    let parts = |s: &str| s.split('.').map(|p| p.to_string()).collect();
    Equation::Connect(Connect { lhs: parts(a), rhs: parts(b) })
}

fn class(name: &str, class_type: ClassType) -> ClassDef {
    ClassDef {
        name: name.to_string(),
        class_type,
        description: vec![],
        components: vec![],
        equations: vec![],
        classes: vec![],
        diagram: None,
    }
}

#[test]
fn missing_connections_are_recovered_once() {
    let mut d = diagram();
    let mut inner = class("Inner", ClassType::Model);
    inner.equations.push(connect("R1.heat", "R3.heat"));
    let mut top = class("M", ClassType::Model);
    top.equations = vec![
        connect("R1.n", "R2.p"),
        connect("R2.p", "R1.n"),
        Equation::Other,
        connect("R1.p", "R3.n"),
        connect("R3.n", "R1.p"),
        connect("R1", "R2.p"),
        connect("R1.p", "Unknown.p"),
        connect("R1.bus.a", "R2.n"),
    ];
    top.classes.push(inner);
    let ast = StoredDefinition { within: None, classes: vec![top] };
    recover_edges_from_source(&ast, &mut d);
    let added: Vec<(u64, &str, u64, &str)> = d.edges[3..]
        .iter()
        .map(|e| (e.source_node, e.source_port.as_str(), e.target_node, e.target_port.as_str()))
        .collect();
    assert_eq!(
        added,
        vec![(10, "p", 30, "n"), (10, "bus.a", 20, "n"), (10, "heat", 30, "heat")]
    );
}

// ── Classes ──────────────────────────────────────────────────────────────

fn file() -> StoredDefinition {
    let mut pi = class("PI", ClassType::Block);
    pi.description = strings(&["\"Proportional-integral\"", "\"second\""]);
    pi.components = vec![
        Component { name: "k".to_string(), is_parameter: true, causality: Causality::Acausal },
        Component { name: "u".to_string(), is_parameter: false, causality: Causality::Input },
        Component { name: "y".to_string(), is_parameter: false, causality: Causality::Output },
        Component { name: "T".to_string(), is_parameter: true, causality: Causality::Acausal },
    ];
    pi.diagram = Some(vec![GraphicItem::Shape(5)]);
    let mut blocks = class("Blocks", ClassType::Package);
    blocks.classes = vec![pi];
    let example = class("Example", ClassType::Model);
    StoredDefinition { within: Some(strings(&["Modelica"])), classes: vec![blocks, example] }
}

#[test]
fn classes_are_found_behind_the_package_of_the_file() {
    let ast = file();
    assert_eq!(walk_qualified(&ast, "Modelica.Blocks.PI").unwrap().name, "PI");
    assert_eq!(walk_qualified(&ast, "Blocks.PI").unwrap().name, "PI");
    assert!(walk_qualified(&ast, "Modelica.Blocks.PID").is_none());
    assert_eq!(locate_class(&ast, "PI").unwrap().name, "PI");
    assert_eq!(locate_class(&ast, "nothing").unwrap().name, "Example");
    assert_eq!(first_non_package(&ast).unwrap().name, "Example");
    assert_eq!(resolve_base_class(&ast, "Modelica.Blocks.PI").unwrap().name, "PI");
    assert!(resolve_base_class(&ast, "Nowhere").is_none());
    assert_eq!(class_context(&ast, "PI"), "Modelica.PI");
}

#[test]
fn diagrams_belong_to_their_class() {
    let ast = file();
    let d = diagram_annotation_for_target(&ast, Some("Modelica.Blocks.PI"));
    assert_eq!(d, Some(&vec![GraphicItem::Shape(5)]));
    assert!(diagram_annotation_for_target(&ast, None).is_none());
}

#[test]
fn a_class_is_summed_up() {
    let info = empty_overlay_class_info(&file(), "PI").unwrap();
    assert_eq!(info.class_type, "block");
    assert_eq!(info.description.as_deref(), Some("Proportional-integral"));
    assert_eq!(info.params, strings(&["k", "T"]));
    assert_eq!(info.inputs, strings(&["u"]));
    assert_eq!(info.outputs, strings(&["y"]));
    let empty = StoredDefinition { within: None, classes: vec![] };
    assert!(empty_overlay_class_info(&empty, "PI").is_none());
    assert_eq!(class_keyword(ClassType::Operator), "operator");
    assert_eq!(class_badge_letter("connector"), "X");
    assert_eq!(class_badge_letter("operator"), "?");
}

// ── Decorations ──────────────────────────────────────────────────────────

fn text(s: &str) -> GraphicItem {
    GraphicItem::Text(TextItem {
        text_string: s.to_string(),
        font_size: f(12),
        text_color: None,
        extent: Extent { p1: m(10, 40), p2: m(-10, 20) },
    })
}

#[test]
fn texts_and_plots_become_nodes() {
    let mut s = Scene::new();
    let plot = PlotItem {
        signal: "R1.v".to_string(),
        title: "V".to_string(),
        extent: Extent { p1: m(0, 0), p2: m(60, 40) },
    };
    let graphics = vec![
        GraphicItem::Shape(9),
        text("\"hello\""),
        text("%name"),
        GraphicItem::Plot(plot),
        text("\"\""),
        text("last"),
    ];
    let origins = emit_diagram_decorations(&mut s, &graphics);
    assert_eq!(origins, strings(&["text:0", "plot:3:R1.v", "text:3"]));
    assert_eq!(s.nodes.len(), 3);
    assert_eq!(s.nodes[0].rect, rect(-10, -40, 10, -20));
    assert!(matches!(&s.nodes[0].data, NodeData::Text(t) if t.text == "hello"));
    assert_eq!(s.nodes[1].rect, rect(0, -40, 60, 0));
    assert!(s.nodes[1].resizable);
    assert_eq!(background_graphics(&graphics), vec![9]);
    assert_eq!(background_box(&Extent { p1: m(-100, -50), p2: m(100, 50) }), rect(-100, -50, 100, 50));
}
