use canvas_diagram::components::{
    component_headers, insert_plot_node, op_add_component_with_name, pick_add_instance_name,
    rebind_plot_node, synthesize_msl_node,
};
use canvas_diagram::coords::ModelicaPos;
use canvas_diagram::fixed::Fixed;
use canvas_diagram::geometry::{PortDir, Pos, Rect};
use canvas_diagram::live::bind_plots;
use canvas_diagram::menus::{
    add_from_menu, delete_component, delete_edge, delete_plot, node_menu, plot_menu_height,
    plot_subtitle, signal_menu, NodeMenu, Signal,
};
use canvas_diagram::model::{ComponentDef, ParamDef, PortDef, PortKind};
use canvas_diagram::ops::{
    build_ops_from_events, Corners, ModelicaOp, Placement, SceneEvent, SourcePort,
};
use canvas_diagram::scene::{
    ConnectionEdgeData, IconNodeData, NodeData, PlotNodeData, PortRef, Scene, SceneEdge,
    SceneNode, TextNodeData,
};

fn f(n: i32) -> Fixed {
    Fixed::whole(n)
}

fn at(x: i32, y: i32) -> Pos {
    Pos::new(f(x), f(y))
}

fn rect(x1: i32, y1: i32, x2: i32, y2: i32) -> Rect {
    Rect { min: at(x1, y1), max: at(x2, y2) }
}

fn icon(class: &str, name: &str) -> NodeData {
    NodeData::Icon(IconNodeData {
        qualified_type: class.to_string(),
        icon_only: false,
        expandable_connector: false,
        icon_graphics: None,
        diagram_graphics: None,
        rotation_deg: f(0),
        mirror_x: false,
        mirror_y: false,
        instance_name: name.to_string(),
        parameters: vec![],
        port_connector_paths: vec![],
        is_conditional: false,
    })
}

fn node(name: &str, r: Rect, data: NodeData, origin: Option<&str>) -> SceneNode {
    SceneNode {
        id: 0,
        rect: r,
        data,
        ports: vec![],
        label: name.to_string(),
        origin: origin.map(|s| s.to_string()),
        resizable: false,
        visual_rect: None,
    }
}

fn edge(id: u64, from: (u64, &str), to: (u64, &str)) -> SceneEdge {
    SceneEdge {
        id,
        from: PortRef { node: from.0, port: from.1.to_string() },
        to: PortRef { node: to.0, port: to.1.to_string() },
        data: ConnectionEdgeData {
            connector_type: "Modelica.Electrical.Analog.Interfaces.Pin".to_string(),
            from_dir: PortDir::Right,
            to_dir: PortDir::Left,
            waypoints_world: vec![],
            icon_color: None,
            source_path: String::new(),
            target_path: String::new(),
            kind: PortKind::Acausal,
            flow_vars: vec![],
        },
        origin: None,
    }
}

/// Two resistors joined by a wire, a plot, a text and a scratch plot.
fn circuit() -> Scene {
    let mut s = Scene::new();
    s.insert_node(node("R1", rect(0, 0, 20, 20), icon("Lib.Resistor", "R1"), Some("R1")));
    s.insert_node(node("R2", rect(40, 0, 60, 20), icon("Lib.Resistor", "R2"), Some("R2")));
    let plot = PlotNodeData {
        entity: 0,
        signal_path: "R1.v".to_string(),
        title: "Voltage".to_string(),
    };
    s.insert_node(node("", rect(0, 40, 60, 80), NodeData::Plot(plot), Some("plot:0:R1.v")));
    let text =
        TextNodeData { text: "note".to_string(), font_size: f(10), color: None };
    s.insert_node(node("", rect(0, 90, 10, 100), NodeData::Text(text), Some("text:3")));
    insert_plot_node(&mut s, at(100, 100), 0, "");
    s.edges.push(edge(0, (0, "n"), (1, "p")));
    s.next_edge = 1;
    s
}

fn port(component: &str, port: &str) -> SourcePort {
    SourcePort { component: component.to_string(), port: port.to_string() }
}

fn ops(scene: &Scene, events: Vec<SceneEvent>) -> Vec<ModelicaOp> {
    build_ops_from_events(scene, &events, "M")
}

#[test]
fn a_moved_component_gets_a_placement_around_its_middle() {
    let r = ops(&circuit(), vec![SceneEvent::NodeMoved { id: 1, new_min: at(100, 50) }]);
    assert_eq!(
        r,
        vec![ModelicaOp::SetPlacement {
            class: "M".to_string(),
            name: "R2".to_string(),
            placement: Placement { x: f(110), y: f(-60), width: f(20), height: f(20) },
        }]
    );
}

#[test]
fn a_moved_text_and_a_moved_plot_get_their_corners() {
    let r = ops(
        &circuit(),
        vec![
            SceneEvent::NodeMoved { id: 3, new_min: at(5, 7) },
            SceneEvent::NodeMoved { id: 2, new_min: at(5, 7) },
        ],
    );
    assert_eq!(
        r,
        vec![
            ModelicaOp::SetDiagramTextExtent {
                class: "M".to_string(),
                index: 3,
                corners: Corners { x1: f(5), y1: f(-7), x2: f(15), y2: f(-17) },
            },
            ModelicaOp::SetPlotNodeExtent {
                class: "M".to_string(),
                signal_path: "R1.v".to_string(),
                corners: Corners { x1: f(5), y1: f(7), x2: f(65), y2: f(47) },
            },
        ]
    );
}

#[test]
fn a_resized_component_keeps_at_least_one_unit() {
    let r = ops(&circuit(), vec![SceneEvent::NodeResized { id: 0, new_rect: rect(0, 0, 0, 4) }]);
    assert_eq!(
        r,
        vec![ModelicaOp::SetPlacement {
            class: "M".to_string(),
            name: "R1".to_string(),
            placement: Placement { x: Fixed::ratio(1, 2), y: f(-2), width: f(1), height: f(4) },
        }]
    );
}

#[test]
fn a_drawn_wire_becomes_a_connection() {
    let r = ops(
        &circuit(),
        vec![SceneEvent::EdgeCreated {
            from: PortRef { node: 0, port: "p".to_string() },
            to: PortRef { node: 1, port: "n".to_string() },
        }],
    );
    assert_eq!(
        r,
        vec![ModelicaOp::AddConnection {
            class: "M".to_string(),
            from: port("R1", "p"),
            to: port("R2", "n"),
        }]
    );
}

#[test]
fn a_wire_to_nothing_of_the_source_is_no_connection() {
    let r = ops(
        &circuit(),
        vec![SceneEvent::EdgeCreated {
            from: PortRef { node: 0, port: "p".to_string() },
            to: PortRef { node: 4, port: "n".to_string() },
        }],
    );
    assert!(r.is_empty());
}

#[test]
fn connections_go_before_their_component() {
    let r = ops(&circuit(), vec![SceneEvent::NodeDeleted { id: 1, orphaned_edges: vec![0] }]);
    assert_eq!(
        r,
        vec![
            ModelicaOp::RemoveConnection {
                class: "M".to_string(),
                from: port("R1", "n"),
                to: port("R2", "p"),
            },
            ModelicaOp::RemoveComponent { class: "M".to_string(), name: "R2".to_string() },
        ]
    );
}

#[test]
fn deleted_decorations_leave_the_annotation() {
    let r = ops(
        &circuit(),
        vec![
            SceneEvent::NodeDeleted { id: 2, orphaned_edges: vec![] },
            SceneEvent::NodeDeleted { id: 3, orphaned_edges: vec![] },
            SceneEvent::NodeDeleted { id: 4, orphaned_edges: vec![] },
            SceneEvent::NodeDoubleClicked { id: 0 },
            SceneEvent::SelectionChanged,
            SceneEvent::EdgeDeleted { id: 7 },
        ],
    );
    assert_eq!(
        r,
        vec![
            ModelicaOp::RemovePlotNode { class: "M".to_string(), signal_path: "R1.v".to_string() },
            ModelicaOp::RemoveDiagramText { class: "M".to_string(), index: 3 },
        ]
    );
}

#[test]
fn no_wire_is_left_without_its_node() {
    let mut s = circuit();
    let orphaned = s.remove_node(0);
    assert_eq!(orphaned, vec![0]);
    assert!(s.edges.is_empty());
    assert!(s.node(0).is_none());
    assert_eq!(s.nodes.len(), 4);
    assert!(s.remove_node(99).is_empty());
}

fn resistor() -> ComponentDef {
    let pin = |name: &str, x: i32, y: i32| PortDef {
        name: name.to_string(),
        connector_type: "Modelica.Electrical.Analog.Interfaces.Pin".to_string(),
        msl_path: "Modelica.Electrical.Analog.Interfaces.Pin".to_string(),
        kind: PortKind::Acausal,
        at: ModelicaPos::new(f(x), f(y)),
        world: at(0, 0),
        dir: at(0, 0),
        size_x: f(20),
        size_y: f(20),
        rotation_deg: f(0),
        color: None,
        flow_vars: vec![],
    };
    let param = |name: &str, default: &str| ParamDef {
        name: name.to_string(),
        param_type: "Modelica.Units.SI.Resistance".to_string(),
        default: default.to_string(),
    };
    ComponentDef {
        name: "resistor".to_string(),
        msl_path: "Lib.Resistor".to_string(),
        description: None,
        icon_text: None,
        class_kind: "model".to_string(),
        is_icon_only: false,
        is_expandable_connector: false,
        icon_graphics: Some(7),
        diagram_graphics: Some(8),
        ports: vec![pin("p", -100, 0), pin("n", 0, 0)],
        parameters: vec![param("R", "100"), param("T_ref", "")],
    }
}

#[test]
fn the_next_free_name_is_picked() {
    assert_eq!(pick_add_instance_name(&resistor(), &circuit()), "R3");
    assert_eq!(pick_add_instance_name(&resistor(), &Scene::new()), "R1");
    let mut nameless = resistor();
    nameless.name = String::new();
    assert_eq!(pick_add_instance_name(&nameless, &circuit()), "X1");
}

#[test]
fn an_added_class_is_shown_and_written() {
    let mut s = circuit();
    let op = add_from_menu(&mut s, &resistor(), at(30, 40), Some("M"));
    assert_eq!(
        op,
        Some(ModelicaOp::AddComponent {
            class: "M".to_string(),
            class_path: "Lib.Resistor".to_string(),
            name: "R3".to_string(),
            modifications: vec![("R".to_string(), "100".to_string())],
            placement: Placement { x: f(30), y: f(-40), width: f(20), height: f(20) },
        })
    );
    let n = s.nodes.last().unwrap();
    assert_eq!(n.rect, rect(20, 30, 40, 50));
    assert_eq!(n.origin.as_deref(), Some("R3"));
    assert_eq!(n.ports[0].local_offset, at(0, 10));
    assert_eq!(n.ports[1].local_offset, at(20, 10));
    let op2 = add_from_menu(&mut s, &resistor(), at(0, 0), Some("M"));
    assert!(matches!(op2, Some(ModelicaOp::AddComponent { ref name, .. }) if name == "R4"));
}

#[test]
fn nothing_is_added_where_no_class_is_edited() {
    let mut s = circuit();
    assert_eq!(add_from_menu(&mut s, &resistor(), at(0, 0), None), None);
    assert_eq!(s, circuit());
}

#[test]
fn a_new_instance_is_synthesized_under_a_fresh_id() {
    let mut s = circuit();
    let id = synthesize_msl_node(&mut s, &resistor(), "R9", at(0, 0));
    assert_eq!(id, 5);
    assert_eq!(s.node(5).unwrap().label, "R9");
    match op_add_component_with_name(&resistor(), "R9", at(0, 0), "M") {
        ModelicaOp::AddComponent { name, .. } => assert_eq!(name, "R9"),
        _ => panic!(),
    }
}

#[test]
fn menus_tell_what_a_node_is() {
    let s = circuit();
    assert_eq!(
        node_menu(&s, 0),
        NodeMenu::Component { instance: "R1".to_string(), class_path: "Lib.Resistor".to_string() }
    );
    assert_eq!(node_menu(&s, 2), NodeMenu::Plot { signal_path: "R1.v".to_string() });
    assert_eq!(
        node_menu(&s, 3),
        NodeMenu::Component { instance: String::new(), class_path: String::new() }
    );
    assert_eq!(
        node_menu(&s, 42),
        NodeMenu::Component { instance: String::new(), class_path: String::new() }
    );
    assert_eq!(component_headers(&s, 1), ("R2".to_string(), "Lib.Resistor".to_string()));
    assert_eq!(plot_subtitle(""), "(unbound)");
    assert_eq!(plot_subtitle("R1.v"), "R1.v");
}

#[test]
fn deleting_from_a_menu_edits_scene_and_source() {
    let mut s = circuit();
    assert_eq!(delete_component(&mut s, 0, None), None);
    assert_eq!(s, circuit());
    assert_eq!(
        delete_component(&mut s, 0, Some("M")),
        Some(ModelicaOp::RemoveComponent { class: "M".to_string(), name: "R1".to_string() })
    );
    assert!(s.node(0).is_none());
    assert!(s.edges.is_empty());
    delete_plot(&mut s, 2);
    assert!(s.node(2).is_none());
    let mut t = circuit();
    assert_eq!(
        delete_edge(&mut t, 0, Some("M")),
        Some(ModelicaOp::RemoveConnection {
            class: "M".to_string(),
            from: port("R1", "n"),
            to: port("R2", "p"),
        })
    );
    assert!(t.edges.is_empty());
    assert_eq!(delete_edge(&mut t, 0, Some("M")), None);
}

#[test]
fn signals_are_listed_by_name() {
    let signal = |entity: u64, path: &str| Signal { entity, path: path.to_string() };
    let signals = vec![signal(1, "b"), signal(1, "a"), signal(2, "b")];
    let menu = signal_menu(&signals, 2, "b");
    let places: Vec<usize> = menu.iter().map(|e| e.place).collect();
    let marks: Vec<bool> = menu.iter().map(|e| e.is_current).collect();
    assert_eq!(places, vec![1, 0, 2]);
    assert_eq!(marks, vec![false, false, true]);
    assert_eq!(plot_menu_height(2, f(1000)), f(90));
    assert_eq!(plot_menu_height(100, f(1000)), f(1000).times(Fixed::ratio(7, 10)));
    assert_eq!(plot_menu_height(100, f(10)), f(180));
}

#[test]
fn plots_are_bound_to_simulations() {
    let mut s = circuit();
    bind_plots(&mut s, 77);
    match &s.node(2).unwrap().data {
        NodeData::Plot(d) => {
            assert_eq!(d.entity, 77);
            assert_eq!(d.title, "Voltage");
        }
        _ => panic!(),
    }
    rebind_plot_node(&mut s, 4, 5, "R2.i");
    match &s.node(4).unwrap().data {
        NodeData::Plot(d) => assert_eq!((d.entity, d.signal_path.as_str()), (5, "R2.i")),
        _ => panic!(),
    }
    assert_eq!(s.node(0), circuit().node(0));
}
