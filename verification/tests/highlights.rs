use canvas_diagram::camera::{
    lerp, plan_camera_move, tick_cinematic_camera, world_view_rect, CameraMove, CinematicCamera,
    EaseKind,
};
use canvas_diagram::color::Rgba;
use canvas_diagram::fixed::Fixed;
use canvas_diagram::geometry::{PortDir, Pos, Rect};
use canvas_diagram::highlight::{draw_edge_flashes, draw_node_glows, opacity};
use canvas_diagram::model::PortKind;
use canvas_diagram::pulse::{
    drive_pending_api_connections, drive_pending_api_focus, fade_pulses, flash_ends,
    port_world_pos, PendingApiConnection, PendingApiConnectionQueue, PendingApiFocus,
    PendingApiFocusQueue,
};
use canvas_diagram::scene::{
    ConnectionEdgeData, NodeData, PortRef, Scene, SceneEdge, SceneNode, ScenePort, TextNodeData,
};
use canvas_diagram::state::{CanvasDiagramState, PulseEntry, Viewport};
use std::collections::HashMap;

fn f(n: i32) -> Fixed {
    Fixed::whole(n)
}

fn at(x: i32, y: i32) -> Pos {
    Pos::new(f(x), f(y))
}

fn rect(x1: i32, y1: i32, x2: i32, y2: i32) -> Rect {
    Rect { min: at(x1, y1), max: at(x2, y2) }
}

fn node(name: &str, x: i32) -> SceneNode {
    SceneNode {
        id: 0,
        rect: rect(x, 0, x + 20, 20),
        data: NodeData::Text(TextNodeData { text: String::new(), font_size: f(1), color: None }),
        ports: vec![ScenePort {
            id: "p".to_string(),
            local_offset: at(20, 5),
            kind: PortKind::Acausal,
        }],
        label: String::new(),
        origin: Some(name.to_string()),
        resizable: false,
        visual_rect: None,
    }
}

fn scene() -> Scene {
    let mut s = Scene::new();
    s.insert_node(node("a", 0));
    s.insert_node(node("b", 100));
    s.edges.push(SceneEdge {
        id: 0,
        from: PortRef { node: 0, port: "p".to_string() },
        to: PortRef { node: 1, port: "p".to_string() },
        data: ConnectionEdgeData {
            connector_type: String::new(),
            from_dir: PortDir::Inside,
            to_dir: PortDir::Inside,
            waypoints_world: vec![],
            icon_color: None,
            source_path: String::new(),
            target_path: String::new(),
            kind: PortKind::Acausal,
            flow_vars: vec![],
        },
        origin: None,
    });
    s.next_edge = 1;
    s
}

fn pulse(id: u64, started: u64, duration_ms: u32) -> PulseEntry {
    PulseEntry { id, started, duration_ms }
}

#[test]
fn highlights_fade_slowly_and_are_forgotten() {
    let mut es = vec![pulse(1, 0, 1000), pulse(2, 600, 1000), pulse(3, 0, 400)];
    let drawn = fade_pulses(&mut es, 500);
    assert_eq!(es, vec![pulse(1, 0, 1000), pulse(2, 600, 1000)]);
    assert_eq!(drawn, vec![(1, Fixed::ratio(15, 16))]);
    let mut start = vec![pulse(1, 0, 1000)];
    assert_eq!(fade_pulses(&mut start, 0), vec![(1, f(1))]);
}

#[test]
fn flashes_join_the_ports() {
    let s = scene();
    assert_eq!(flash_ends(&s, 0), Some((at(20, 5), at(120, 5))));
    assert_eq!(flash_ends(&s, 9), None);
    assert_eq!(port_world_pos(&s.nodes[1], "q"), at(110, 10));
    let mut es = vec![pulse(0, 0, 1000), pulse(5, 0, 1000)];
    let flashes = draw_edge_flashes(&mut es, &s, 0);
    assert_eq!(flashes.len(), 1);
    assert_eq!((flashes[0].from, flashes[0].to), (at(20, 5), at(120, 5)));
    assert_eq!(flashes[0].halo.a, 178);
    assert_eq!(flashes[0].line, Rgba { r: 242, g: 186, b: 57, a: 242 });
}

#[test]
fn glows_get_fainter_outwards() {
    let s = scene();
    let mut es = vec![pulse(1, 0, 1000), pulse(7, 0, 1000)];
    let base = Rgba { r: 255, g: 0, b: 0, a: 255 };
    let glows = draw_node_glows(&mut es, &s, 0, base);
    assert_eq!(glows.len(), 1);
    assert_eq!(glows[0].rect, rect(100, 0, 120, 20));
    let outsets: Vec<Fixed> = glows[0].rings.iter().map(|r| r.outset).collect();
    assert_eq!(outsets, vec![f(3), f(6), f(9), f(12)]);
    let alphas: Vec<u8> = glows[0].rings.iter().map(|r| r.color.a).collect();
    assert_eq!(alphas, vec![165, 129, 92, 56]);
    assert_eq!(opacity(f(2)), 255);
    assert_eq!(opacity(f(-1)), 0);
}

fn connection(queued_at: u64, to: &str, animation_ms: u32) -> PendingApiConnection {
    PendingApiConnection {
        doc: 1,
        from_component: "a".to_string(),
        from_port: "p".to_string(),
        to_component: to.to_string(),
        to_port: "p".to_string(),
        queued_at,
        animation_ms,
    }
}

#[test]
fn added_connections_flash_once_they_are_shown() {
    let mut st = CanvasDiagramState::new();
    st.get_mut(Some(1)).scene = scene();
    let mut q = PendingApiConnectionQueue { items: vec![] };
    q.push(connection(0, "b", 800));
    q.push(connection(0, "c", 800));
    drive_pending_api_connections(&mut q, &mut st, 100);
    assert_eq!(st.get(Some(1)).edge_pulses, vec![pulse(0, 100, 800)]);
    assert_eq!(q.items.len(), 1);
    drive_pending_api_connections(&mut q, &mut st, 5001);
    assert!(q.items.is_empty());
    assert_eq!(st.get(Some(1)).edge_pulses.len(), 1);
}

/// The same scene with its nodes in the other order, and another edge before.
fn other_scene() -> Scene {
    let mut s = Scene::new();
    s.insert_node(node("b", 100));
    s.insert_node(node("a", 0));
    let mut edge = scene().edges.remove(0);
    edge.id = 6;
    s.edges.push(edge);
    let mut back = scene().edges.remove(0);
    back.id = 7;
    back.from.node = 1;
    back.to.node = 0;
    s.edges.push(back);
    s.next_edge = 8;
    s
}

#[test]
fn an_added_connection_flashes_in_every_tab_that_shows_it() {
    let mut st = CanvasDiagramState::new();
    st.get_mut_for_tab(10, 1).scene = scene();
    st.get_mut_for_tab(11, 1).scene = other_scene();
    st.get_mut_for_tab(12, 1);
    st.get_mut_for_tab(20, 2).scene = scene();
    st.get_mut_for_tab(11, 1).edge_pulses.push(pulse(6, 50, 10));
    let mut q = PendingApiConnectionQueue { items: vec![connection(0, "b", 800)] };
    drive_pending_api_connections(&mut q, &mut st, 100);
    assert!(q.items.is_empty());
    assert_eq!(st.get_for_tab(10).edge_pulses, vec![pulse(0, 100, 800)]);
    assert_eq!(st.get_for_tab(11).edge_pulses, vec![pulse(6, 50, 10), pulse(7, 100, 800)]);
    assert!(st.get_for_tab(12).edge_pulses.is_empty());
    assert!(st.get_for_tab(20).edge_pulses.is_empty());
}

#[test]
fn one_tab_that_shows_a_connection_ends_its_wait() {
    let mut st = CanvasDiagramState::new();
    st.get_mut_for_tab(10, 1);
    st.get_mut_for_tab(11, 1).scene = other_scene();
    let mut q = PendingApiConnectionQueue { items: vec![connection(0, "b", 0)] };
    drive_pending_api_connections(&mut q, &mut st, 100);
    assert!(q.items.is_empty());
    assert!(st.get_for_tab(11).edge_pulses.is_empty());
    q.push(connection(0, "b", 800));
    drive_pending_api_connections(&mut q, &mut st, 5001);
    assert!(q.items.is_empty());
    assert!(st.get_for_tab(11).edge_pulses.is_empty());
    let mut late = connection(0, "b", 800);
    late.doc = 3;
    q.push(late);
    drive_pending_api_connections(&mut q, &mut st, 5000);
    assert_eq!(q.items.len(), 1);
}

fn focus(name: &str, queued_at: u64) -> PendingApiFocus {
    PendingApiFocus { doc: 1, name: name.to_string(), queued_at, animation_ms: 500 }
}

fn shown_state() -> CanvasDiagramState {
    let mut st = CanvasDiagramState::new();
    let ds = st.get_mut(Some(1));
    ds.scene = scene();
    ds.viewport = Viewport { center: at(0, 0), zoom: f(1) };
    ds.screen = rect(0, 0, 200, 200);
    st
}

#[test]
fn a_batch_of_additions_is_framed_and_highlighted_in_turn() {
    let mut st = shown_state();
    let mut q = PendingApiFocusQueue { items: vec![] };
    q.push(focus("a", 0));
    q.push(focus("b", 50));
    drive_pending_api_focus(&mut q, &mut st, 200);
    assert_eq!(q.items.len(), 2);
    drive_pending_api_focus(&mut q, &mut st, 250);
    assert!(q.items.is_empty());
    let ds = st.get(Some(1));
    assert_eq!(ds.pulses, vec![pulse(0, 250, 500), pulse(1, 500, 500)]);
    assert!(ds.pending_fit);
    assert_eq!(ds.fit_region, Some(rect(-100, -100, 120, 100)));
}

#[test]
fn every_tab_highlights_its_own_nodes_and_moves_its_own_camera() {
    let mut st = CanvasDiagramState::new();
    for (tab, s, width) in [(10, scene(), 200), (11, other_scene(), 400)] {
        let ds = st.get_mut_for_tab(tab, 1);
        ds.scene = s;
        ds.viewport = Viewport { center: at(0, 0), zoom: f(1) };
        ds.screen = rect(0, 0, width, 200);
    }
    let part = st.get_mut_for_tab(12, 1);
    part.scene.insert_node(node("b", 0));
    part.screen = rect(0, 0, 200, 200);
    st.get_mut_for_tab(20, 2).scene = scene();
    let mut q = PendingApiFocusQueue { items: vec![focus("a", 0), focus("b", 0)] };
    drive_pending_api_focus(&mut q, &mut st, 300);
    assert!(q.items.is_empty());
    assert_eq!(st.get_for_tab(10).pulses, vec![pulse(0, 300, 500), pulse(1, 550, 500)]);
    assert_eq!(st.get_for_tab(11).pulses, vec![pulse(1, 300, 500), pulse(0, 550, 500)]);
    assert_eq!(st.get_for_tab(12).pulses, vec![pulse(0, 550, 500)]);
    assert!(st.get_for_tab(20).pulses.is_empty());
    assert!(st.get_for_tab(10).pending_fit);
    assert!(!st.get_for_tab(11).pending_fit);
    assert!(!st.get_for_tab(12).pending_fit);
    assert!(!st.get_for_tab(20).pending_fit);
}

#[test]
fn a_batch_waits_for_the_first_tab_of_its_document() {
    let mut st = CanvasDiagramState::new();
    st.get_mut_for_tab(10, 1);
    st.get_mut_for_tab(11, 1).scene = scene();
    let mut q = PendingApiFocusQueue { items: vec![focus("a", 0)] };
    drive_pending_api_focus(&mut q, &mut st, 5000);
    assert_eq!(q.items.len(), 1);
    drive_pending_api_focus(&mut q, &mut st, 5001);
    assert!(q.items.is_empty());
    assert!(st.get_for_tab(11).pulses.is_empty());
}

#[test]
fn the_camera_stays_where_everything_is_seen() {
    let mut st = shown_state();
    let mut q = PendingApiFocusQueue { items: vec![focus("a", 0)] };
    drive_pending_api_focus(&mut q, &mut st, 300);
    assert!(!st.get(Some(1)).pending_fit);
    assert_eq!(st.get(Some(1)).pulses, vec![pulse(0, 300, 500)]);
    assert_eq!(
        world_view_rect(Viewport { center: at(10, 0), zoom: f(2) }, rect(0, 0, 200, 100)),
        rect(-40, -25, 60, 25)
    );
}

// ── Camera ───────────────────────────────────────────────────────────────

#[test]
fn easing_starts_and_ends_where_it_should() {
    for k in [EaseKind::Linear, EaseKind::EaseOutCubic, EaseKind::EaseInOutCubic] {
        assert_eq!(k.apply(f(0)), f(0));
        assert_eq!(k.apply(f(1)), f(1));
        assert_eq!(k.apply(f(7)), f(1));
    }
    assert_eq!(EaseKind::Hold.apply(Fixed::ratio(1, 2)), f(0));
    assert_eq!(EaseKind::EaseOutCubic.apply(Fixed::ratio(1, 2)), Fixed::ratio(7, 8));
    assert_eq!(EaseKind::EaseInOutCubic.apply(Fixed::ratio(1, 4)), Fixed::ratio(1, 16));
    assert_eq!(EaseKind::EaseInOutCubic.apply(Fixed::ratio(3, 4)), Fixed::ratio(15, 16));
    assert_eq!(lerp(f(10), f(20), Fixed::ratio(1, 2)), f(15));
}

#[test]
fn a_move_sweeps_and_ends() {
    let mv = CameraMove {
        started_at: 0,
        keyframes: plan_camera_move(at(0, 0), f(1), at(100, 50), f(3)),
        last_applied: None,
    };
    assert_eq!(mv.total_ms(), 700);
    assert_eq!(mv.sample(0), Some((at(0, 0), f(1))));
    assert_eq!(mv.sample(350), Some((at(50, 25), f(2))));
    assert_eq!(mv.sample(700), None);
}

#[test]
fn a_move_yields_to_the_user() {
    let mut st = CanvasDiagramState::new();
    st.get_mut(Some(1));
    let mv = CameraMove {
        started_at: 0,
        keyframes: plan_camera_move(at(0, 0), f(1), at(100, 50), f(3)),
        last_applied: None,
    };
    let mut moves = HashMap::new();
    moves.insert(1, mv);
    let mut camera = CinematicCamera { moves };
    tick_cinematic_camera(&mut camera, &mut st, 350);
    assert_eq!(st.get(Some(1)).viewport.center, at(50, 25));
    assert!(camera.moves.contains_key(&1));
    st.get_mut(Some(1)).viewport.center = at(0, 0);
    tick_cinematic_camera(&mut camera, &mut st, 360);
    assert!(!camera.moves.contains_key(&1));
    assert_eq!(st.get(Some(1)).viewport.center, at(0, 0));
}
