use canvas_diagram::apply::{
    acknowledge_edit, apply_one_op_as, apply_ops, apply_ops_to_doc, line_starts, needs_fresh_ast,
    preload_classes, ApplyError, JournalEntry, OpOutcome, SingleEdit,
};
use canvas_diagram::arrange::{auto_arrange_now, DiagramAutoLayoutSettings};
use canvas_diagram::fixed::Fixed;
use canvas_diagram::framing::{fit_all, reset_zoom, scene_bounds, take_fit, FitRequest};
use canvas_diagram::geometry::{Pos, Rect};
use canvas_diagram::lifecycle::{
    begin_projection, finish_projection, give_up_when_overdue, initial_view, initial_zoom,
    needs_projection, should_stop, DiagramProjectionLimits, DocumentFacts, ProjectionResult,
};
use canvas_diagram::ops::{ModelicaOp, Placement, RestructureKind};
use canvas_diagram::scene::{
    IconNodeData, NodeData, PlotNodeData, Scene, SceneNode, TextNodeData,
};
use canvas_diagram::source_slice::projection_relevant_source_hash;
use canvas_diagram::state::{
    arrange_layers, CanvasDiagramState, CanvasDocState, SelectItem,
};

fn f(n: i32) -> Fixed {
    Fixed::whole(n)
}

fn at(x: i32, y: i32) -> Pos {
    Pos::new(f(x), f(y))
}

fn rect(x1: i32, y1: i32, x2: i32, y2: i32) -> Rect {
    Rect { min: at(x1, y1), max: at(x2, y2) }
}

fn node(origin: Option<&str>, plot: bool) -> SceneNode {
    let data = if plot {
        NodeData::Plot(PlotNodeData {
            entity: 0,
            signal_path: String::new(),
            title: String::new(),
        })
    } else {
        NodeData::Text(TextNodeData { text: String::new(), font_size: f(1), color: None })
    };
    SceneNode {
        id: 0,
        rect: rect(0, 0, 20, 20),
        data,
        ports: vec![],
        label: String::new(),
        origin: origin.map(|s| s.to_string()),
        resizable: false,
        visual_rect: None,
    }
}

fn scene(names: &[&str]) -> Scene {
    let mut s = Scene::new();
    for n in names {
        s.insert_node(node(Some(n), false));
    }
    s
}

fn facts<'a>(generation: u64, target: Option<&str>, source: &'a str) -> DocumentFacts<'a> {
    DocumentFacts {
        generation,
        target: target.map(|s| s.to_string()),
        ast_stale: false,
        source: Some(source),
    }
}

fn project(ds: &mut CanvasDocState, gen: u64, source: &str, s: Scene) -> ProjectionResult {
    begin_projection(ds, gen, None, None, source, 1, 0, DiagramProjectionLimits::default());
    finish_projection(ds, s)
}

#[test]
fn a_document_is_projected_when_it_is_first_shown() {
    let mut st = CanvasDiagramState::new();
    assert!(needs_projection(&mut st, None, 1, &facts(0, None, "model M end M;")));
    let mut stale = facts(0, None, "model M end M;");
    stale.ast_stale = true;
    assert!(!needs_projection(&mut st, None, 1, &stale));
}

#[test]
fn only_relevant_edits_are_projected() {
    let mut st = CanvasDiagramState::new();
    project(st.get_mut(Some(1)), 3, "model M end M;", scene(&["a"]));
    assert!(!needs_projection(&mut st, None, 1, &facts(3, None, "model M end M;")));
    assert!(!needs_projection(&mut st, None, 1, &facts(4, None, "model M // note\n end M;")));
    assert_eq!(st.get(Some(1)).last_seen_gen, 4);
    assert!(needs_projection(&mut st, None, 1, &facts(5, None, "model M Real x; end M;")));
    assert!(needs_projection(&mut st, None, 1, &facts(4, Some("M.N"), "model M end M;")));
}

#[test]
fn own_edits_are_not_projected() {
    let mut st = CanvasDiagramState::new();
    project(st.get_mut(Some(1)), 3, "model M end M;", scene(&["a"]));
    acknowledge_edit(st.get_mut(Some(1)), 4, "model M R R1; end M;");
    assert!(!needs_projection(&mut st, None, 1, &facts(4, None, "model M R R1; end M;")));
    assert_eq!(
        st.get(Some(1)).last_seen_source_hash,
        projection_relevant_source_hash("model M R R1; end M;")
    );
    assert!(needs_projection(&mut st, None, 1, &facts(5, None, "model M R R2; end M;")));
}

#[test]
fn a_task_is_started_once_for_a_generation() {
    let mut ds = CanvasDocState::default();
    let limits = DiagramProjectionLimits::default();
    let a = begin_projection(&mut ds, 2, None, None, "m", 11, 100, limits);
    assert!(a.spawn && a.cancel.is_none());
    let b = begin_projection(&mut ds, 2, None, None, "m", 12, 110, limits);
    assert!(!b.spawn && b.cancel.is_none());
    let c = begin_projection(&mut ds, 3, None, None, "m", 13, 120, limits);
    assert!(c.spawn);
    assert_eq!(c.cancel, Some(11));
    assert_eq!(ds.projection_task.as_ref().unwrap().handle, 13);
}

#[test]
fn a_source_that_is_too_long_counts_as_seen() {
    let mut ds = CanvasDocState::default();
    let long = "x".repeat(10_000_001);
    let limits = DiagramProjectionLimits::default();
    let r = begin_projection(&mut ds, 7, None, None, &long, 1, 0, limits);
    assert!(!r.spawn);
    assert_eq!(ds.last_seen_gen, 7);
}

#[test]
fn an_overdue_task_is_given_up() {
    let mut ds = CanvasDocState::default();
    let limits = DiagramProjectionLimits { max_nodes: 10, max_duration_ms: 50 };
    begin_projection(&mut ds, 2, None, None, "m", 11, 100, limits);
    assert_eq!(give_up_when_overdue(&mut ds, 150, Some(2)), None);
    assert_eq!(give_up_when_overdue(&mut ds, 151, Some(2)), Some(11));
    assert!(ds.projection_task.is_none());
    assert_eq!(ds.last_seen_gen, 2);
    assert!(should_stop(true, 0, 100, 0));
    assert!(!should_stop(false, 0, 100, 100));
    assert!(should_stop(false, 0, 100, 101));
}

#[test]
fn an_empty_projection_keeps_the_last_good_scene() {
    let mut ds = CanvasDocState::default();
    project(&mut ds, 1, "a", scene(&["R1"]));
    assert!(matches!(project(&mut ds, 2, "b", Scene::new()), ProjectionResult::KeptLastGood));
    assert_eq!(ds.scene.nodes.len(), 1);
    assert_eq!(ds.last_seen_gen, 2);
}

#[test]
fn a_projection_older_than_the_canvas_is_discarded() {
    let mut ds = CanvasDocState::default();
    ds.canvas_acked_gen = 9;
    assert!(matches!(project(&mut ds, 2, "b", scene(&["R1"])), ProjectionResult::Discarded));
    assert!(ds.scene.nodes.is_empty());
    assert!(ds.projection_task.is_none());
}

#[test]
fn selection_and_scratch_plots_survive_a_projection() {
    let mut ds = CanvasDocState::default();
    project(&mut ds, 1, "a", scene(&["R1", "R2"]));
    ds.selection.push(SelectItem::Node(1));
    ds.scene.insert_node(node(None, true));
    match project(&mut ds, 2, "b", scene(&["R0", "R1", "R2"])) {
        ProjectionResult::Swapped { initial, remap } => {
            assert!(!initial);
            assert_eq!(remap, vec![(0, 1), (1, 2)]);
        }
        _ => panic!(),
    }
    assert_eq!(ds.selection, vec![SelectItem::Node(2)]);
    assert_eq!(ds.scene.nodes.len(), 4);
    assert!(matches!(ds.scene.nodes[3].data, NodeData::Plot(_)));
}

#[test]
fn the_first_scene_is_framed_within_bounds() {
    let mut ds = CanvasDocState::default();
    assert!(matches!(
        project(&mut ds, 1, "a", scene(&["R1"])),
        ProjectionResult::Swapped { initial: true, .. }
    ));
    assert_eq!(initial_zoom(f(9), f(2)), f(4));
    assert_eq!(initial_zoom(Fixed::ratio(1, 2), f(2)), f(1));
    assert_eq!(initial_zoom(f(3), f(2)), f(3));
    let framed = initial_view(Some((at(5, 6), f(9))), f(2));
    assert_eq!((framed.center, framed.zoom), (at(5, 6), f(4)));
    let bare = initial_view(None, f(2));
    assert_eq!((bare.center, bare.zoom), (at(0, 0), f(2)));
}

// ── State ────────────────────────────────────────────────────────────────

#[test]
fn documents_have_their_own_state() {
    let mut st = CanvasDiagramState::new();
    assert!(!st.has_entry(5));
    st.get_mut(Some(5)).last_seen_gen = 3;
    st.get_mut(None).last_seen_gen = 8;
    assert_eq!(st.get(Some(5)).last_seen_gen, 3);
    assert_eq!(st.get(Some(6)).last_seen_gen, 8);
    assert_eq!(st.get_for_doc(5).unwrap().last_seen_gen, 3);
    assert!(st.get_for_doc(6).is_none());
    st.get_mut(Some(4));
    st.get_mut_for_tab(9, 5);
    assert_eq!(st.iter_doc_ids(), vec![5, 4]);
    st.drop_doc(5);
    assert!(!st.has_entry(5));
    assert!(!st.has_entry_for_tab(9));
    assert!(st.has_entry(4));
}

#[test]
fn tabs_on_one_document_have_their_own_canvases() {
    let mut st = CanvasDiagramState::new();
    st.get_mut_for_tab(7, 1).last_seen_gen = 3;
    st.get_mut_for_tab(8, 1).last_seen_gen = 4;
    st.get_mut(None).last_seen_gen = 9;
    assert_eq!(st.get_for_tab(7).last_seen_gen, 3);
    assert_eq!(st.get_for_tab(8).last_seen_gen, 4);
    assert_eq!(st.get_for_tab(6).last_seen_gen, 9);
    assert_eq!(st.get(Some(1)).last_seen_gen, 3);
    st.get_mut(Some(1)).last_seen_gen = 5;
    assert_eq!(st.get_for_tab(7).last_seen_gen, 5);
    st.get_mut_for_render(Some(8), Some(1)).last_seen_gen = 6;
    assert_eq!(st.get_for_render(Some(8), Some(1)).last_seen_gen, 6);
    assert_eq!(st.get_for_render(None, Some(1)).last_seen_gen, 5);
    st.get_mut_for_render(Some(8), None).last_seen_gen = 10;
    assert_eq!(st.get_for_render(None, None).last_seen_gen, 10);
    assert!(st.has_entry_for_tab(8) && !st.has_entry_for_tab(6));
}

#[test]
fn an_edit_in_one_tab_is_projected_in_the_others() {
    let applied = vec![OpOutcome::Applied { has_inverse: true }];
    let (before, after) = ("model M end M;", "model M R R1; end M;");
    let mut st = CanvasDiagramState::new();
    for tab in [7, 8] {
        assert!(needs_projection(&mut st, Some(tab), 1, &facts(3, None, before)));
        project(st.get_mut_for_tab(tab, 1), 3, before, scene(&["a"]));
        assert!(!needs_projection(&mut st, Some(tab), 1, &facts(3, None, before)));
    }
    apply_ops_to_doc(&mut st, Some(8), 1, &applied, None, 4, Some(after));
    assert!(!needs_projection(&mut st, Some(8), 1, &facts(4, None, after)));
    assert!(needs_projection(&mut st, Some(7), 1, &facts(4, None, after)));
    assert!(needs_projection(&mut st, Some(6), 1, &facts(4, None, after)));
    assert!(!needs_projection(&mut st, Some(7), 1, &facts(5, None, "model M /* n */ end M;")));
    assert_eq!(st.get_for_tab(7).last_seen_gen, 5);
    assert_eq!(st.get_for_tab(8).last_seen_gen, 4);
}

#[test]
fn layers_are_arranged_around_the_grid() {
    let base: Vec<String> = "grid edges nodes selection tool"
        .split(' ')
        .map(|s| s.to_string())
        .collect();
    assert_eq!(
        arrange_layers(&base),
        vec![
            "grid",
            "modelica.diagram_decoration",
            "edges",
            "nodes",
            "tool",
            "modelica.pulse_glow",
            "modelica.edge_pulse"
        ]
    );
}

// ── Edits ────────────────────────────────────────────────────────────────

#[test]
fn a_batch_is_journaled_and_acknowledged_as_far_as_it_was_applied() {
    let source = "model M\nend M;";
    let outcomes = vec![
        OpOutcome::Failed,
        OpOutcome::Applied { has_inverse: true },
        OpOutcome::Applied { has_inverse: false },
    ];
    let mut ds = CanvasDocState::default();
    let r = apply_ops(&mut ds, &outcomes, None, 4, Some(source));
    assert!(r.acknowledge && r.waive_debounce);
    assert_eq!(r.error, None);
    assert_eq!(r.line_starts, Some(vec![0, 8]));
    assert_eq!(
        r.journal,
        vec![
            JournalEntry { op: 1, has_inverse: true },
            JournalEntry { op: 2, has_inverse: false }
        ]
    );
    assert_eq!((ds.canvas_acked_gen, ds.last_seen_gen), (4, 4));
    assert_eq!(ds.last_seen_source_hash, projection_relevant_source_hash(source));
    let gone = apply_ops(&mut ds, &outcomes, None, 9, None);
    assert_eq!((gone.line_starts, ds.canvas_acked_gen), (None, 4));
    let refused = vec![OpOutcome::Failed];
    let none = apply_ops(&mut ds, &refused, Some("old".to_string()), 9, Some(source));
    assert!(!none.acknowledge && !none.waive_debounce && none.journal.is_empty());
    assert_eq!(none.error.as_deref(), Some("old"));
    assert_eq!((none.line_starts, ds.canvas_acked_gen, ds.last_seen_gen), (None, 4, 4));
}

#[test]
fn a_batch_concerns_its_own_document() {
    let applied = vec![OpOutcome::Applied { has_inverse: true }];
    let mut st = CanvasDiagramState::new();
    st.get_mut(Some(2));
    apply_ops_to_doc(&mut st, None, 1, &vec![OpOutcome::Failed], None, 3, Some("x"));
    assert!(!st.has_entry(1));
    let r = apply_ops_to_doc(&mut st, None, 1, &applied, None, 3, Some("x"));
    assert_eq!(r.line_starts, Some(vec![0]));
    assert_eq!(st.get(Some(1)).canvas_acked_gen, 3);
    assert_eq!(st.get(Some(2)).canvas_acked_gen, 0);
    assert_eq!(st.get(None).canvas_acked_gen, 0);
}

#[test]
fn a_new_document_is_seen_at_normal_zoom() {
    let mut st = CanvasDiagramState::new();
    let ds = st.get_mut(Some(1));
    assert_eq!((ds.viewport.center, ds.viewport.zoom), (at(0, 0), f(1)));
    assert_eq!(ds.screen, rect(0, 0, 0, 0));
}

#[test]
fn refused_edits_are_told_once() {
    let mut ds = CanvasDocState::default();
    let twice = vec![OpOutcome::ReadOnly, OpOutcome::ReadOnly];
    let r = apply_ops(&mut ds, &twice, None, 1, None);
    assert_eq!(
        r.error.as_deref(),
        Some("Read-only library tab — edits rejected. Use File → Duplicate to Workspace to create an editable copy.")
    );
    let kept = apply_ops(&mut ds, &vec![OpOutcome::ReadOnly], Some("x".to_string()), 1, None);
    assert_eq!(kept.error.as_deref(), Some("x"));
}

#[test]
fn a_single_edit_says_why_it_failed() {
    let ok = Some(OpOutcome::Applied { has_inverse: true });
    assert_eq!(apply_one_op_as(3, false, ok), Err(ApplyError::RegistryMissing));
    assert_eq!(apply_one_op_as(3, true, None), Err(ApplyError::DocumentMissing(3)));
    assert_eq!(
        apply_one_op_as(3, true, Some(OpOutcome::ReadOnly)),
        Err(ApplyError::ReadOnly)
    );
    assert_eq!(apply_one_op_as(3, true, Some(OpOutcome::Failed)), Err(ApplyError::Rejected));
    for has_inverse in [true, false] {
        assert_eq!(
            apply_one_op_as(3, true, Some(OpOutcome::Applied { has_inverse })),
            Ok(SingleEdit { waive_debounce: true, mark_changed: true, journal: true, has_inverse })
        );
    }
}

#[test]
fn library_classes_are_loaded_before_they_are_needed() {
    let add = |path: &str| ModelicaOp::AddComponent {
        class: "M".to_string(),
        class_path: path.to_string(),
        name: "x".to_string(),
        modifications: vec![],
        placement: Placement { x: f(0), y: f(0), width: f(20), height: f(20) },
    };
    let restructure = ModelicaOp::Restructure { kind: RestructureKind::AddClass, payload: 1 };
    assert!(needs_fresh_ast(&restructure));
    assert!(!needs_fresh_ast(&add("Mine")));
    let ops = vec![add("Modelica.Blocks.Gain"), add("Mine.Gain"), restructure];
    assert_eq!(preload_classes(&ops), vec!["Modelica.Blocks.Gain".to_string()]);
}

#[test]
fn lines_start_behind_line_ends() {
    assert_eq!(line_starts("a\nbc\n"), vec![0, 2, 5]);
    assert_eq!(line_starts(""), vec![0]);
}

#[test]
fn components_are_arranged_on_a_grid_in_scene_order() {
    let mut s = Scene::new();
    for name in ["c", "a", "c", "b"] {
        let mut n = node(Some(name), false);
        n.data = NodeData::Icon(IconNodeData {
            qualified_type: "Lib.Gain".to_string(),
            icon_only: false,
            expandable_connector: false,
            icon_graphics: None,
            diagram_graphics: None,
            rotation_deg: f(0),
            mirror_x: false,
            mirror_y: false,
            instance_name: name.to_string(),
            parameters: vec![],
            port_connector_paths: vec![],
            is_conditional: false,
        });
        s.insert_node(n);
        // Texts and plots stay where they are.
        s.insert_node(node(Some("text:0"), false));
        s.insert_node(node(Some("plot:1:tank.m"), true));
    }
    let layout = DiagramAutoLayoutSettings {
        cols: 2,
        spacing_x: f(30),
        spacing_y: f(40),
        row_stagger: Fixed::ratio(1, 2),
    };
    let place = |name: &str, x: i32, y: i32| ModelicaOp::SetPlacement {
        class: "M".to_string(),
        name: name.to_string(),
        placement: Placement { x: f(x), y: f(y), width: f(20), height: f(20) },
    };
    assert_eq!(
        auto_arrange_now(&s, &layout, "M"),
        vec![place("c", 10, -10), place("a", 40, -10), place("b", 25, -50)]
    );
}

// ── Framing ──────────────────────────────────────────────────────────────

#[test]
fn a_fit_is_served_once() {
    let mut ds = CanvasDocState::default();
    ds.scene = scene(&["a"]);
    ds.scene.nodes[0].rect = rect(-5, 0, 20, 20);
    ds.scene.insert_node(node(Some("b"), false));
    let screen = rect(0, 0, 640, 480);
    assert_eq!(take_fit(&mut ds, screen), None);
    ds.pending_fit = true;
    assert_eq!(
        take_fit(&mut ds, screen),
        Some(FitRequest { bounds: rect(-5, 0, 20, 20), screen, margin: f(40) })
    );
    assert_eq!(take_fit(&mut ds, screen), None);
    ds.pending_fit = true;
    ds.fit_region = Some(rect(1, 1, 2, 2));
    assert_eq!(take_fit(&mut ds, screen).unwrap().bounds, rect(1, 1, 2, 2));
    assert_eq!(ds.fit_region, None);
}

#[test]
fn an_empty_scene_has_no_bounds() {
    assert_eq!(scene_bounds(&Scene::new()), None);
    assert_eq!(fit_all(&Scene::new()), None);
    assert_eq!(fit_all(&scene(&["a"])).unwrap().screen, rect(0, 0, 800, 600));
    let v = CanvasDocState::default().viewport;
    assert_eq!(reset_zoom(v).zoom, f(1));
}
